//! The multi-plane drawing / extended-scroll extension.
//!
//! A superset extension adding: a plane-selection mask, resolution toggles
//! that clear only the selected planes, arbitrary-row downward and fixed or
//! variable sideways scrolls of the selected planes, masked sprite draws
//! onto the plane pair, ascending register-range transfers that advance the
//! index register, and an audio-buffer opcode whose converted samples are
//! the hook point for an audio collaborator.
//!
//! In the scroll opcode group the low byte 0xFC keeps its legacy meaning —
//! a 4-column left scroll — and only the remaining low bytes of the form
//! 0xCN scroll down by N rows; this literal-byte-before-nibble-pattern
//! precedence is preserved deliberately for compatibility.

use vstd::prelude::*;
use crate::conf::{LARGE_FONT_BASE_ADDR, RAM_SIZE, REGISTER_COUNT};
use crate::display::{
    all_false, buf_fill_false, buf_scroll_down, buf_scroll_left, buf_scroll_right,
    draw_sprite_planes, draw_sprite_planes16, flag_of, masked_draw16_rows, masked_draw_rows,
    scrolled_down, scrolled_left, scrolled_right,
};
use crate::error::VmError;
use crate::extensions::{Extension, VmContext};
use crate::model::{MState, StepOut, lemma_nibbles, res_of, step_err, step_ok};

verus! {

/// The state after a resolution switch: the new viewport, with each plane
/// selected by the current mask cleared.
pub open spec fn xo_resolution(m: MState, w: usize, h: usize) -> MState {
    MState {
        current_width: w,
        current_height: h,
        plane_1: if m.plane_mask & 1 != 0 {
            all_false(m.plane_1.len())
        } else {
            m.plane_1
        },
        plane_2: if m.plane_mask & 2 != 0 {
            all_false(m.plane_2.len())
        } else {
            m.plane_2
        },
        ..m
    }
}

/// The state after scrolling the selected planes down by `n` rows: a scroll
/// of at least the viewport height clears the selected planes and the
/// primary screen outright.
pub open spec fn xo_scroll_down(m: MState, n: u8) -> MState {
    if n >= m.current_height {
        MState {
            plane_1: if m.plane_mask & 1 != 0 {
                all_false(m.plane_1.len())
            } else {
                m.plane_1
            },
            plane_2: if m.plane_mask & 2 != 0 {
                all_false(m.plane_2.len())
            } else {
                m.plane_2
            },
            screen: all_false(m.screen.len()),
            ..m
        }
    } else {
        MState {
            plane_1: if m.plane_mask & 1 != 0 {
                scrolled_down(m.plane_1, m.current_width as int, m.current_height as int, n as int)
            } else {
                m.plane_1
            },
            plane_2: if m.plane_mask & 2 != 0 {
                scrolled_down(m.plane_2, m.current_width as int, m.current_height as int, n as int)
            } else {
                m.plane_2
            },
            ..m
        }
    }
}

/// The state after scrolling the selected planes left by `k` columns.
pub open spec fn xo_scroll_left(m: MState, k: u8) -> MState {
    MState {
        plane_1: if m.plane_mask & 1 != 0 {
            scrolled_left(m.plane_1, m.current_width as int, m.current_height as int, k as int)
        } else {
            m.plane_1
        },
        plane_2: if m.plane_mask & 2 != 0 {
            scrolled_left(m.plane_2, m.current_width as int, m.current_height as int, k as int)
        } else {
            m.plane_2
        },
        ..m
    }
}

/// The state after scrolling the selected planes right by `k` columns.
pub open spec fn xo_scroll_right(m: MState, k: u8) -> MState {
    MState {
        plane_1: if m.plane_mask & 1 != 0 {
            scrolled_right(m.plane_1, m.current_width as int, m.current_height as int, k as int)
        } else {
            m.plane_1
        },
        plane_2: if m.plane_mask & 2 != 0 {
            scrolled_right(m.plane_2, m.current_width as int, m.current_height as int, k as int)
        } else {
            m.plane_2
        },
        ..m
    }
}

/// The masked `k`-row sprite draw of the extension, on the plane pair.
pub open spec fn xo_draw(m: MState, x: int, y: int, k: u8) -> StepOut {
    let regs0 = m.registers.update(15, 0u8);
    let d = masked_draw_rows(
        m.plane_1,
        m.plane_2,
        m.memory,
        m.i_register as int,
        m.plane_mask,
        regs0[x] as int,
        regs0[y] as int,
        m.current_width as int,
        m.current_height as int,
        k as nat,
    );
    StepOut {
        m: MState {
            plane_1: d.p1,
            plane_2: d.p2,
            registers: m.registers.update(15, flag_of(d.hit)),
            ..m
        },
        err: d.err,
    }
}

/// The masked two-plane 16-by-16 sprite draw of the extension.
pub open spec fn xo_draw16(m: MState, x: int, y: int) -> StepOut {
    let regs0 = m.registers.update(15, 0u8);
    let d = masked_draw16_rows(
        m.plane_1,
        m.plane_2,
        m.memory,
        m.i_register as int,
        m.plane_mask,
        regs0[x] as int,
        regs0[y] as int,
        m.current_width as int,
        m.current_height as int,
        16,
    );
    StepOut {
        m: MState {
            plane_1: d.p1,
            plane_2: d.p2,
            registers: m.registers.update(15, flag_of(d.hit)),
            ..m
        },
        err: d.err,
    }
}

/// The signed 16-bit waveform read by the audio opcode: one register-length
/// run of unsigned samples at the index register, each recentred and scaled.
pub open spec fn xo_audio_wave(m: MState, x: int) -> Seq<i16> {
    Seq::new(
        m.registers[x] as nat,
        |j: int| (((m.memory[m.i_register + j] as int) - 128) * 256) as i16,
    )
}

/// The full opcode semantics of the extension, assuming it is active:
/// `None` declines the opcode to the next handler or the base table.
pub open spec fn xo_step(m: MState, op: u16) -> Option<StepOut> {
    let d1 = (op & 0xF000) >> 12;
    let d2 = ((op & 0x0F00) >> 8) as u8;
    let d3 = ((op & 0x00F0) >> 4) as u8;
    let d4 = (op & 0x000F) as u8;
    let nn = op & 0xFF;
    let x = d2 as int;
    let y = d3 as int;
    if d1 == 0 && d2 == 0 && d3 == 0xF && d4 == 0xD {
        Some(step_err(m, VmError::Exit))
    } else if d1 == 0 && d2 == 0 && d3 == 0xF && d4 == 0xE {
        Some(step_ok(xo_resolution(m, 64, 32)))
    } else if d1 == 0 && d2 == 0 && d3 == 0xF && d4 == 0xF {
        Some(step_ok(xo_resolution(m, 128, 64)))
    } else if d1 == 0 && d2 == 0 && d3 == 0xF && d4 == 0xB {
        Some(step_ok(xo_scroll_right(m, 4)))
    } else if d1 == 0 && d2 == 0 && nn == 0xFC {
        Some(step_ok(xo_scroll_left(m, 4)))
    } else if d1 == 0 && d2 == 0 && d3 == 0xC {
        Some(step_ok(xo_scroll_down(m, d4)))
    } else if d1 == 0xD && d4 == 0 {
        Some(xo_draw16(m, x, y))
    } else if d1 == 0xD {
        Some(xo_draw(m, x, y, d4))
    } else if d1 == 0xF && d3 == 0 && d4 == 1 {
        Some(step_ok(MState { plane_mask: m.registers[x] & 3, ..m }))
    } else if d1 == 0xF && d3 == 3 && d4 == 0 {
        Some(
            step_ok(
                MState { i_register: (LARGE_FONT_BASE_ADDR + m.registers[x] * 10) as u16, ..m },
            ),
        )
    } else if d1 == 0xF && d3 == 0 && d4 == 0xF {
        if m.i_register + m.registers[x] > RAM_SIZE {
            Some(step_err(m, VmError::AudioOutOfBounds))
        } else {
            Some(step_ok(m))
        }
    } else if d1 == 5 && d4 == 2 {
        if d2 > d3 {
            None
        } else if m.i_register + (d3 - d2) >= RAM_SIZE {
            Some(step_err(m, VmError::MemoryOutOfBounds))
        } else {
            Some(
                step_ok(
                    MState {
                        memory: Seq::new(
                            m.memory.len(),
                            |j: int|
                                if m.i_register <= j <= m.i_register + (d3 - d2) {
                                    m.registers[x + (j - m.i_register)]
                                } else {
                                    m.memory[j]
                                },
                        ),
                        i_register: (m.i_register + (d3 - d2) + 1) as u16,
                        ..m
                    },
                ),
            )
        }
    } else if d1 == 5 && d4 == 3 {
        if d2 > d3 {
            None
        } else if m.i_register + (d3 - d2) >= RAM_SIZE {
            Some(step_err(m, VmError::MemoryOutOfBounds))
        } else {
            Some(
                step_ok(
                    MState {
                        registers: Seq::new(
                            m.registers.len(),
                            |j: int|
                                if x <= j <= y {
                                    m.memory[m.i_register + (j - x)]
                                } else {
                                    m.registers[j]
                                },
                        ),
                        i_register: (m.i_register + (d3 - d2) + 1) as u16,
                        ..m
                    },
                ),
            )
        }
    } else {
        None
    }
}

/// The multi-plane drawing / extended-scroll extension handler.
#[derive(Clone, Copy)]
pub struct XoChip {
    pub active: bool,
}

impl XoChip {
    /// A handler that intercepts opcodes exactly when `active` holds.
    pub fn new(active: bool) -> (r: Self)
        ensures
            r.spec_active() == active,
    {
        XoChip { active }
    }

    /// The explicit exit opcode: a deliberate, fatal halt.
    pub fn exit_interpreter(&self) -> (r: Result<bool, VmError>)
        ensures
            r == Err::<bool, VmError>(VmError::Exit),
    {
        Err(VmError::Exit)
    }

    /// Switches to the low-resolution viewport and clears the planes
    /// selected by the current mask.
    pub fn set_low_resolution(ctx: &mut VmContext) -> (r: Result<(), VmError>)
        requires
            old(ctx).wf(),
        ensures
            final(ctx).wf(),
            final(ctx)@ == xo_resolution(old(ctx)@, 64, 32),
            r == Ok::<(), VmError>(()),
    {
        ctx.current_width = 64;
        ctx.current_height = 32;
        if ctx.plane_mask & 1 != 0 {
            buf_fill_false(&mut ctx.plane_1);
        }
        if ctx.plane_mask & 2 != 0 {
            buf_fill_false(&mut ctx.plane_2);
        }
        Ok(())
    }

    /// Switches to the high-resolution viewport and clears the planes
    /// selected by the current mask.
    pub fn set_high_resolution(ctx: &mut VmContext) -> (r: Result<(), VmError>)
        requires
            old(ctx).wf(),
        ensures
            final(ctx).wf(),
            final(ctx)@ == xo_resolution(old(ctx)@, 128, 64),
            r == Ok::<(), VmError>(()),
    {
        ctx.current_width = 128;
        ctx.current_height = 64;
        if ctx.plane_mask & 1 != 0 {
            buf_fill_false(&mut ctx.plane_1);
        }
        if ctx.plane_mask & 2 != 0 {
            buf_fill_false(&mut ctx.plane_2);
        }
        Ok(())
    }

    /// Scrolls the planes selected by the current mask down by `n` rows; a
    /// scroll of at least the viewport height clears the selected planes
    /// and the primary screen outright.
    pub fn scroll_down(ctx: &mut VmContext, n: u8) -> (r: Result<(), VmError>)
        requires
            old(ctx).wf(),
        ensures
            final(ctx).wf(),
            final(ctx)@ == xo_scroll_down(old(ctx)@, n),
            r == Ok::<(), VmError>(()),
    {
        if n as usize >= ctx.current_height {
            if ctx.plane_mask & 1 != 0 {
                buf_fill_false(&mut ctx.plane_1);
            }
            if ctx.plane_mask & 2 != 0 {
                buf_fill_false(&mut ctx.plane_2);
            }
            buf_fill_false(&mut ctx.screen);
            return Ok(());
        }
        let w = ctx.current_width;
        let h = ctx.current_height;
        if ctx.plane_mask & 1 != 0 {
            buf_scroll_down(&mut ctx.plane_1, w, h, n as usize);
        }
        if ctx.plane_mask & 2 != 0 {
            buf_scroll_down(&mut ctx.plane_2, w, h, n as usize);
        }
        Ok(())
    }

    /// Scrolls the planes selected by the current mask right by 4 columns.
    pub fn scroll_right(ctx: &mut VmContext) -> (r: Result<(), VmError>)
        requires
            old(ctx).wf(),
        ensures
            final(ctx).wf(),
            final(ctx)@ == xo_scroll_right(old(ctx)@, 4),
            r == Ok::<(), VmError>(()),
    {
        let w = ctx.current_width;
        let h = ctx.current_height;
        if ctx.plane_mask & 1 != 0 {
            buf_scroll_right(&mut ctx.plane_1, w, h, 4);
        }
        if ctx.plane_mask & 2 != 0 {
            buf_scroll_right(&mut ctx.plane_2, w, h, 4);
        }
        Ok(())
    }

    /// Scrolls the planes selected by the current mask left by 4 columns.
    pub fn scroll_left(ctx: &mut VmContext) -> (r: Result<(), VmError>)
        requires
            old(ctx).wf(),
        ensures
            final(ctx).wf(),
            final(ctx)@ == xo_scroll_left(old(ctx)@, 4),
            r == Ok::<(), VmError>(()),
    {
        let w = ctx.current_width;
        let h = ctx.current_height;
        if ctx.plane_mask & 1 != 0 {
            buf_scroll_left(&mut ctx.plane_1, w, h, 4);
        }
        if ctx.plane_mask & 2 != 0 {
            buf_scroll_left(&mut ctx.plane_2, w, h, 4);
        }
        Ok(())
    }

    /// Scrolls the planes selected by the current mask left by `n` columns;
    /// a zero scroll leaves the state alone.
    pub fn scroll_left_n(ctx: &mut VmContext, n: u8) -> (r: Result<(), VmError>)
        requires
            old(ctx).wf(),
        ensures
            final(ctx).wf(),
            final(ctx)@ == (if n == 0 {
                old(ctx)@
            } else {
                xo_scroll_left(old(ctx)@, n)
            }),
            r == Ok::<(), VmError>(()),
    {
        if n == 0 {
            return Ok(());
        }
        let w = ctx.current_width;
        let h = ctx.current_height;
        if ctx.plane_mask & 1 != 0 {
            buf_scroll_left(&mut ctx.plane_1, w, h, n as usize);
        }
        if ctx.plane_mask & 2 != 0 {
            buf_scroll_left(&mut ctx.plane_2, w, h, n as usize);
        }
        Ok(())
    }

    /// Draws a `k`-row, 8-column sprite onto the planes selected by the
    /// current mask, with wraparound, XOR semantics and collision reporting
    /// in the flag register.
    pub fn draw_sprite(ctx: &mut VmContext, x_reg: usize, y_reg: usize, k: usize) -> (r: Result<
        (),
        VmError,
    >)
        requires
            old(ctx).wf(),
            x_reg < REGISTER_COUNT,
            y_reg < REGISTER_COUNT,
            k <= 15,
        ensures
            final(ctx).wf(),
            ({
                let so = xo_draw(old(ctx)@, x_reg as int, y_reg as int, k as u8);
                final(ctx)@ == so.m && r == res_of(so.err)
            }),
    {
        draw_sprite_planes(ctx, x_reg, y_reg, k)
    }

    /// Draws a two-plane 16-by-16 sprite: the first plane's bitmap lies at
    /// the index register, and the second plane takes the 32 bytes after it
    /// when both planes are selected, or mirrors the first plane otherwise.
    pub fn draw_16x16_sprite(ctx: &mut VmContext, x_reg: usize, y_reg: usize) -> (r: Result<
        (),
        VmError,
    >)
        requires
            old(ctx).wf(),
            x_reg < REGISTER_COUNT,
            y_reg < REGISTER_COUNT,
        ensures
            final(ctx).wf(),
            ({
                let so = xo_draw16(old(ctx)@, x_reg as int, y_reg as int);
                final(ctx)@ == so.m && r == res_of(so.err)
            }),
    {
        draw_sprite_planes16(ctx, x_reg, y_reg)
    }

    /// Reads a register-length run of bytes at the index register and
    /// converts each unsigned sample to a signed 16-bit value. The returned
    /// waveform is the hook point for an audio playback collaborator;
    /// nothing consumes it yet.
    pub fn play_audio(&self, ctx: &mut VmContext, x: usize) -> (r: Result<Vec<i16>, VmError>)
        requires
            old(ctx).wf(),
            x < REGISTER_COUNT,
        ensures
            final(ctx)@ == old(ctx)@,
            ({
                let m = old(ctx)@;
                if m.i_register + m.registers[x as int] > RAM_SIZE {
                    r == Err::<Vec<i16>, VmError>(VmError::AudioOutOfBounds)
                } else {
                    r is Ok && r.unwrap()@ == xo_audio_wave(m, x as int)
                }
            }),
    {
        let addr_start = ctx.i_register as usize;
        let count = ctx.registers[x] as usize;
        if addr_start + count > RAM_SIZE {
            return Err(VmError::AudioOutOfBounds);
        }
        let mut waveform: Vec<i16> = Vec::new();
        let mut j: usize = 0;
        while j < count
            invariant
                old(ctx).wf(),
                ctx@ == old(ctx)@,
                x < REGISTER_COUNT,
                addr_start == old(ctx)@.i_register,
                count == old(ctx)@.registers[x as int],
                addr_start + count <= RAM_SIZE,
                j <= count,
                waveform@.len() == j,
                forall|t: int|
                    0 <= t < j ==> waveform@[t] == ((((old(ctx)@.memory[addr_start + t]) as int)
                        - 128) * 256) as i16,
            decreases count - j,
        {
            let sample = ctx.memory[addr_start + j];
            waveform.push(((sample as i16) - 128) * 256);
            j += 1;
        }
        proof {
            assert(waveform@ =~= xo_audio_wave(old(ctx)@, x as int));
        }
        Ok(waveform)
    }
}

impl Extension for XoChip {
    open spec fn spec_active(&self) -> bool {
        self.active
    }

    open spec fn spec_handle(&self, m: MState, op: u16) -> Option<StepOut> {
        if self.active {
            xo_step(m, op)
        } else {
            None
        }
    }

    open spec fn spec_name(&self) -> Seq<char> {
        "XO-Chip"@
    }

    fn name(&self) -> (r: &'static str) {
        "XO-Chip"
    }

    fn is_active(&self) -> (r: bool) {
        self.active
    }

    fn initialize(&self, _ctx: &mut VmContext) {
    }

    fn handle_instruction(&self, ctx: &mut VmContext, opcode: u16) -> (r: Result<bool, VmError>) {
        if !self.active {
            return Ok(false);
        }
        let d1 = (opcode & 0xF000) >> 12;
        let d2 = ((opcode & 0x0F00) >> 8) as u8;
        let d3 = ((opcode & 0x00F0) >> 4) as u8;
        let d4 = (opcode & 0x000F) as u8;
        let nn = opcode & 0xFF;
        let x = d2 as usize;
        let y = d3 as usize;
        proof {
            lemma_nibbles(opcode);
        }

        match (d1, d2, d3, d4) {
            // Exit interpreter.
            (0, 0, 0xF, 0xD) => self.exit_interpreter(),
            // Set low-resolution mode.
            (0, 0, 0xF, 0xE) => {
                match Self::set_low_resolution(ctx) {
                    Ok(()) => Ok(true),
                    Err(e) => Err(e),
                }
            },
            // Set high-resolution mode.
            (0, 0, 0xF, 0xF) => {
                match Self::set_high_resolution(ctx) {
                    Ok(()) => Ok(true),
                    Err(e) => Err(e),
                }
            },
            // Scroll right 4 columns.
            (0, 0, 0xF, 0xB) => {
                match Self::scroll_right(ctx) {
                    Ok(()) => Ok(true),
                    Err(e) => Err(e),
                }
            },
            // In the scroll group the full low byte is compared first: 0xFC
            // keeps its legacy meaning of a 4-column left scroll, and only
            // the remaining 0xCN low bytes scroll down by N rows.
            (0, 0, _, _) if nn == 0xFC => {
                match Self::scroll_left(ctx) {
                    Ok(()) => Ok(true),
                    Err(e) => Err(e),
                }
            },
            (0, 0, 0xC, n) => {
                match Self::scroll_down(ctx, n) {
                    Ok(()) => Ok(true),
                    Err(e) => Err(e),
                }
            },
            // Draw a two-plane 16x16 sprite.
            (0xD, _, _, 0) => {
                match Self::draw_16x16_sprite(ctx, x, y) {
                    Ok(()) => Ok(true),
                    Err(e) => Err(e),
                }
            },
            // Draw a k-row sprite onto the selected planes.
            (0xD, _, _, k) => {
                match Self::draw_sprite(ctx, x, y, k as usize) {
                    Ok(()) => Ok(true),
                    Err(e) => Err(e),
                }
            },
            // Set the drawing plane mask.
            (0xF, _, 0, 1) => {
                let v = ctx.registers[x];
                proof {
                    assert((v & 3) < 4) by (bit_vector);
                }
                ctx.plane_mask = v & 3;
                Ok(true)
            },
            // Point the index register at the large glyph of the register value.
            (0xF, _, 3, 0) => {
                let c = ctx.registers[x] as u16;
                ctx.i_register = LARGE_FONT_BASE_ADDR + c * 10;
                Ok(true)
            },
            // Read an audio buffer; the waveform has no consumer yet.
            (0xF, _, 0, 0xF) => {
                match self.play_audio(ctx, x) {
                    Ok(_waveform) => Ok(true),
                    Err(e) => Err(e),
                }
            },
            // Save registers x..=y to memory at the index register.
            (5, _, _, 2) => {
                if d2 > d3 {
                    return Ok(false);
                }
                let span = (y - x) as usize;
                if (ctx.i_register as usize) + span >= RAM_SIZE {
                    return Err(VmError::MemoryOutOfBounds);
                }
                let ghost i0 = old(ctx)@.i_register as int;
                proof {
                    assert(Seq::new(
                        old(ctx)@.memory.len(),
                        |j: int|
                            if i0 <= j < i0 {
                                old(ctx)@.registers[x + (j - i0)]
                            } else {
                                old(ctx)@.memory[j]
                            },
                    ) =~= old(ctx)@.memory);
                }
                let mut current_i: usize = ctx.i_register as usize;
                let mut reg_idx: usize = x;
                while reg_idx <= y
                    invariant
                        ctx.wf(),
                        x <= reg_idx <= y + 1,
                        y < REGISTER_COUNT,
                        i0 + (y - x) < RAM_SIZE,
                        current_i == i0 + (reg_idx - x),
                        ctx@ == (MState {
                            memory: Seq::new(
                                old(ctx)@.memory.len(),
                                |j: int|
                                    if i0 <= j < i0 + (reg_idx - x) {
                                        old(ctx)@.registers[x + (j - i0)]
                                    } else {
                                        old(ctx)@.memory[j]
                                    },
                            ),
                            ..old(ctx)@
                        }),
                    decreases y + 1 - reg_idx,
                {
                    let v = ctx.registers[reg_idx];
                    ctx.memory[current_i] = v;
                    proof {
                        assert(ctx.memory@ =~= Seq::new(
                            old(ctx)@.memory.len(),
                            |j: int|
                                if i0 <= j < i0 + (reg_idx + 1 - x) {
                                    old(ctx)@.registers[x + (j - i0)]
                                } else {
                                    old(ctx)@.memory[j]
                                },
                        ));
                    }
                    current_i += 1;
                    reg_idx += 1;
                }
                ctx.i_register = current_i as u16;
                proof {
                    assert(ctx.memory@ =~= Seq::new(
                        old(ctx)@.memory.len(),
                        |j: int|
                            if i0 <= j <= i0 + (y - x) {
                                old(ctx)@.registers[x + (j - i0)]
                            } else {
                                old(ctx)@.memory[j]
                            },
                    ));
                }
                Ok(true)
            },
            // Load registers x..=y from memory at the index register.
            (5, _, _, 3) => {
                if d2 > d3 {
                    return Ok(false);
                }
                let span = (y - x) as usize;
                if (ctx.i_register as usize) + span >= RAM_SIZE {
                    return Err(VmError::MemoryOutOfBounds);
                }
                let ghost i0 = old(ctx)@.i_register as int;
                proof {
                    assert(Seq::new(
                        old(ctx)@.registers.len(),
                        |j: int|
                            if x <= j < x {
                                old(ctx)@.memory[i0 + (j - x)]
                            } else {
                                old(ctx)@.registers[j]
                            },
                    ) =~= old(ctx)@.registers);
                }
                let mut current_i: usize = ctx.i_register as usize;
                let mut reg_idx: usize = x;
                while reg_idx <= y
                    invariant
                        ctx.wf(),
                        x <= reg_idx <= y + 1,
                        y < REGISTER_COUNT,
                        i0 + (y - x) < RAM_SIZE,
                        current_i == i0 + (reg_idx - x),
                        ctx@ == (MState {
                            registers: Seq::new(
                                old(ctx)@.registers.len(),
                                |j: int|
                                    if x <= j < reg_idx {
                                        old(ctx)@.memory[i0 + (j - x)]
                                    } else {
                                        old(ctx)@.registers[j]
                                    },
                            ),
                            ..old(ctx)@
                        }),
                    decreases y + 1 - reg_idx,
                {
                    let v = ctx.memory[current_i];
                    ctx.registers[reg_idx] = v;
                    proof {
                        assert(ctx.registers@ =~= Seq::new(
                            old(ctx)@.registers.len(),
                            |j: int|
                                if x <= j < reg_idx + 1 {
                                    old(ctx)@.memory[i0 + (j - x)]
                                } else {
                                    old(ctx)@.registers[j]
                                },
                        ));
                    }
                    current_i += 1;
                    reg_idx += 1;
                }
                ctx.i_register = current_i as u16;
                proof {
                    assert(ctx.registers@ =~= Seq::new(
                        old(ctx)@.registers.len(),
                        |j: int|
                            if x <= j <= y {
                                old(ctx)@.memory[i0 + (j - x)]
                            } else {
                                old(ctx)@.registers[j]
                            },
                    ));
                }
                Ok(true)
            },
            _ => Ok(false),
        }
    }
}

} // verus!
