//! The display model: fixed-stride pixel buffers and the specifications of
//! the clear, scroll and sprite-draw operations that act on them.
//!
//! Every buffer is sized for the highest resolution and is indexed with the
//! fixed row stride `HI_RES_WIDTH`, whatever the active viewport, so a
//! resolution switch never reindexes a buffer.

use vstd::prelude::*;
use crate::conf::{HI_RES_HEIGHT, HI_RES_WIDTH, MAX_SCREEN_SIZE, RAM_SIZE, REGISTER_COUNT};
use crate::error::VmError;
use crate::extensions::VmContext;
use crate::model::{MState, res_of};

verus! {

/// The flag-register value that reports a boolean outcome.
pub open spec fn flag_of(b: bool) -> u8 {
    if b {
        1u8
    } else {
        0u8
    }
}

/// Decomposing a buffer index into its row and column.
proof fn lemma_row_col(c: int, r: int)
    by (nonlinear_arith)
    requires
        0 <= c < 128,
        0 <= r,
    ensures
        (c + r * 128) % 128 == c,
        (c + r * 128) / 128 == r,
{
}

/// The buffer with every cell of the active `w` by `h` viewport cleared and
/// every cell outside it untouched.
pub open spec fn cleared_viewport(s: Seq<bool>, w: int, h: int) -> Seq<bool> {
    Seq::new(
        s.len(),
        |i: int|
            if i % (HI_RES_WIDTH as int) < w && i / (HI_RES_WIDTH as int) < h {
                false
            } else {
                s[i]
            },
    )
}

/// A buffer of `n` cleared cells.
pub open spec fn all_false(n: nat) -> Seq<bool> {
    Seq::new(n, |i: int| false)
}

/// Clears a whole buffer.
pub fn buf_fill_false(buf: &mut Vec<bool>)
    ensures
        final(buf)@ == all_false(old(buf)@.len()),
{
    let n = buf.len();
    *buf = vec![false; n];
    proof {
        assert(buf@ =~= all_false(old(buf)@.len()));
    }
}

/// Clears the active viewport of a buffer, leaving cells outside it alone.
pub fn viewport_clear(buf: &mut Vec<bool>, w: usize, h: usize)
    requires
        old(buf)@.len() == MAX_SCREEN_SIZE,
        w <= HI_RES_WIDTH,
        h <= HI_RES_HEIGHT,
    ensures
        final(buf)@ == cleared_viewport(old(buf)@, w as int, h as int),
{
    let mut row: usize = 0;
    while row < h
        invariant
            buf@.len() == MAX_SCREEN_SIZE,
            w <= HI_RES_WIDTH,
            h <= 64,
            row <= h,
            forall|i: int|
                0 <= i < MAX_SCREEN_SIZE ==> buf@[i] == (if i % 128 < w && i / 128 < row as int {
                    false
                } else {
                    old(buf)@[i]
                }),
        decreases h - row,
    {
        let mut col: usize = 0;
        while col < w
            invariant
                buf@.len() == MAX_SCREEN_SIZE,
                w <= HI_RES_WIDTH,
                h <= 64,
                row < h,
                col <= w,
                forall|i: int|
                    0 <= i < MAX_SCREEN_SIZE ==> buf@[i] == (if i % 128 < w && (i / 128 < row as int
                        || (i / 128 == row as int && i % 128 < col as int)) {
                        false
                    } else {
                        old(buf)@[i]
                    }),
            decreases w - col,
        {
            let idx = col + row * HI_RES_WIDTH;
            proof {
                lemma_row_col(col as int, row as int);
            }
            buf[idx] = false;
            col += 1;
        }
        row += 1;
    }
    proof {
        assert(buf@ =~= cleared_viewport(old(buf)@, w as int, h as int));
    }
}

/// The buffer with the active viewport scrolled down by `n` rows: row `r`
/// takes what row `r - n` held, the top `n` rows become clear, and cells
/// outside the viewport are untouched.
pub open spec fn scrolled_down(s: Seq<bool>, w: int, h: int, n: int) -> Seq<bool> {
    Seq::new(
        s.len(),
        |i: int|
            {
                let r = i / 128;
                let c = i % 128;
                if c < w && r < h {
                    if r < n {
                        false
                    } else {
                        s[(r - n) * 128 + c]
                    }
                } else {
                    s[i]
                }
            },
    )
}

/// The buffer with the active viewport scrolled left by `k` columns: column
/// `c` takes what column `c + k` held, the rightmost `k` columns become
/// clear, and cells outside the viewport are untouched.
pub open spec fn scrolled_left(s: Seq<bool>, w: int, h: int, k: int) -> Seq<bool> {
    Seq::new(
        s.len(),
        |i: int|
            {
                let r = i / 128;
                let c = i % 128;
                if c < w && r < h {
                    if c + k < w {
                        s[r * 128 + c + k]
                    } else {
                        false
                    }
                } else {
                    s[i]
                }
            },
    )
}

/// The buffer with the active viewport scrolled right by `k` columns: column
/// `c` takes what column `c - k` held, the leftmost `k` columns become
/// clear, and cells outside the viewport are untouched.
pub open spec fn scrolled_right(s: Seq<bool>, w: int, h: int, k: int) -> Seq<bool> {
    Seq::new(
        s.len(),
        |i: int|
            {
                let r = i / 128;
                let c = i % 128;
                if c < w && r < h {
                    if c >= k {
                        s[r * 128 + c - k]
                    } else {
                        false
                    }
                } else {
                    s[i]
                }
            },
    )
}

/// Scrolls the active viewport of a buffer down by `n` rows in place.
pub fn buf_scroll_down(buf: &mut Vec<bool>, w: usize, h: usize, n: usize)
    requires
        old(buf)@.len() == MAX_SCREEN_SIZE,
        w <= HI_RES_WIDTH,
        h <= HI_RES_HEIGHT,
        n < h,
    ensures
        final(buf)@ == scrolled_down(old(buf)@, w as int, h as int, n as int),
{
    let mut row: usize = h;
    while row > n
        invariant
            buf@.len() == MAX_SCREEN_SIZE,
            w <= HI_RES_WIDTH,
            h <= HI_RES_HEIGHT,
            n <= row <= h,
            forall|i: int|
                0 <= i < MAX_SCREEN_SIZE ==> buf@[i] == (if i % 128 < w && row as int <= i / 128 && i / 128
                    < h {
                    old(buf)@[(i / 128 - n) * 128 + i % 128]
                } else {
                    old(buf)@[i]
                }),
        decreases row,
    {
        row -= 1;
        let mut col: usize = 0;
        while col < w
            invariant
                buf@.len() == MAX_SCREEN_SIZE,
                w <= HI_RES_WIDTH,
                h <= HI_RES_HEIGHT,
                n <= row < h,
                col <= w,
                forall|i: int|
                    0 <= i < MAX_SCREEN_SIZE ==> buf@[i] == (if i % 128 < w && (((row as int) < i / 128 && i / 128 < h) || (i
                        / 128 == row as int && i % 128 < col as int)) {
                        old(buf)@[(i / 128 - n) * 128 + i % 128]
                    } else {
                        old(buf)@[i]
                    }),
            decreases w - col,
        {
            let src = col + (row - n) * HI_RES_WIDTH;
            let dst = col + row * HI_RES_WIDTH;
            proof {
                lemma_row_col(col as int, (row - n) as int);
                lemma_row_col(col as int, row as int);
            }
            let v = buf[src];
            buf[dst] = v;
            col += 1;
        }
    }
    let mut row2: usize = 0;
    while row2 < n
        invariant
            buf@.len() == MAX_SCREEN_SIZE,
            w <= HI_RES_WIDTH,
            h <= HI_RES_HEIGHT,
            n < h,
            row2 <= n,
            forall|i: int|
                0 <= i < MAX_SCREEN_SIZE ==> buf@[i] == (if i % 128 < w && i / 128 < h {
                    if i / 128 < row2 as int {
                        false
                    } else if i / 128 >= n {
                        old(buf)@[(i / 128 - n) * 128 + i % 128]
                    } else {
                        old(buf)@[i]
                    }
                } else {
                    old(buf)@[i]
                }),
        decreases n - row2,
    {
        let mut col: usize = 0;
        while col < w
            invariant
                buf@.len() == MAX_SCREEN_SIZE,
                w <= HI_RES_WIDTH,
                h <= HI_RES_HEIGHT,
                n < h,
                row2 < n,
                col <= w,
                forall|i: int|
                    0 <= i < MAX_SCREEN_SIZE ==> buf@[i] == (if i % 128 < w && i / 128 < h {
                        if i / 128 < row2 as int || (i / 128 == row2 as int && i % 128
                            < col as int) {
                            false
                        } else if i / 128 >= n {
                            old(buf)@[(i / 128 - n) * 128 + i % 128]
                        } else {
                            old(buf)@[i]
                        }
                    } else {
                        old(buf)@[i]
                    }),
            decreases w - col,
        {
            let idx = col + row2 * HI_RES_WIDTH;
            proof {
                lemma_row_col(col as int, row2 as int);
            }
            buf[idx] = false;
            col += 1;
        }
        row2 += 1;
    }
    proof {
        assert(buf@ =~= scrolled_down(old(buf)@, w as int, h as int, n as int));
    }
}

/// Scrolls the active viewport of a buffer left by `k` columns in place.
pub fn buf_scroll_left(buf: &mut Vec<bool>, w: usize, h: usize, k: usize)
    requires
        old(buf)@.len() == MAX_SCREEN_SIZE,
        w <= HI_RES_WIDTH,
        h <= HI_RES_HEIGHT,
    ensures
        final(buf)@ == scrolled_left(old(buf)@, w as int, h as int, k as int),
{
    let keep: usize = if k >= w {
        0
    } else {
        w - k
    };
    let mut row: usize = 0;
    while row < h
        invariant
            buf@.len() == MAX_SCREEN_SIZE,
            w <= HI_RES_WIDTH,
            h <= HI_RES_HEIGHT,
            keep == (if k >= w {
                0int
            } else {
                w - k
            }),
            row <= h,
            forall|i: int|
                0 <= i < MAX_SCREEN_SIZE ==> buf@[i] == (if i % 128 < w && i / 128 < row as int {
                    if i % 128 + k < w {
                        old(buf)@[i + k]
                    } else {
                        false
                    }
                } else {
                    old(buf)@[i]
                }),
        decreases h - row,
    {
        let mut col: usize = 0;
        while col < keep
            invariant
                buf@.len() == MAX_SCREEN_SIZE,
                w <= HI_RES_WIDTH,
                h <= HI_RES_HEIGHT,
                keep == (if k >= w {
                    0int
                } else {
                    w - k
                }),
                row < h,
                col <= keep,
                forall|i: int|
                    0 <= i < MAX_SCREEN_SIZE ==> buf@[i] == (if i % 128 < w && (i / 128
                        < row as int || (i / 128 == row as int && i % 128 < col as int)) {
                        if i % 128 + k < w {
                            old(buf)@[i + k]
                        } else {
                            false
                        }
                    } else {
                        old(buf)@[i]
                    }),
            decreases keep - col,
        {
            let src = (col + k) + row * HI_RES_WIDTH;
            let dst = col + row * HI_RES_WIDTH;
            proof {
                lemma_row_col((col + k) as int, row as int);
                lemma_row_col(col as int, row as int);
            }
            let v = buf[src];
            buf[dst] = v;
            col += 1;
        }
        let mut col2: usize = keep;
        while col2 < w
            invariant
                buf@.len() == MAX_SCREEN_SIZE,
                w <= HI_RES_WIDTH,
                h <= HI_RES_HEIGHT,
                keep == (if k >= w {
                    0int
                } else {
                    w - k
                }),
                row < h,
                keep <= col2 <= w,
                forall|i: int|
                    0 <= i < MAX_SCREEN_SIZE ==> buf@[i] == (if i % 128 < w && (i / 128
                        < row as int || (i / 128 == row as int && i % 128 < col2 as int)) {
                        if i % 128 + k < w {
                            old(buf)@[i + k]
                        } else {
                            false
                        }
                    } else {
                        old(buf)@[i]
                    }),
            decreases w - col2,
        {
            let idx = col2 + row * HI_RES_WIDTH;
            proof {
                lemma_row_col(col2 as int, row as int);
            }
            buf[idx] = false;
            col2 += 1;
        }
        row += 1;
    }
    proof {
        assert forall|i: int| 0 <= i < MAX_SCREEN_SIZE implies buf@[i] == scrolled_left(
            old(buf)@,
            w as int,
            h as int,
            k as int,
        )[i] by {
            if i % 128 < w && i / 128 < h && i % 128 + k < w {
                lemma_row_col(i % 128 + k, i / 128);
            }
        }
        assert(buf@ =~= scrolled_left(old(buf)@, w as int, h as int, k as int));
    }
}

/// Scrolls the active viewport of a buffer right by `k` columns in place.
pub fn buf_scroll_right(buf: &mut Vec<bool>, w: usize, h: usize, k: usize)
    requires
        old(buf)@.len() == MAX_SCREEN_SIZE,
        w <= HI_RES_WIDTH,
        h <= HI_RES_HEIGHT,
    ensures
        final(buf)@ == scrolled_right(old(buf)@, w as int, h as int, k as int),
{
    let clear_to: usize = if k >= w {
        w
    } else {
        k
    };
    let mut row: usize = 0;
    while row < h
        invariant
            buf@.len() == MAX_SCREEN_SIZE,
            w <= HI_RES_WIDTH,
            h <= HI_RES_HEIGHT,
            clear_to == (if k >= w {
                w as int
            } else {
                k as int
            }),
            row <= h,
            forall|i: int|
                0 <= i < MAX_SCREEN_SIZE ==> buf@[i] == (if i % 128 < w && i / 128 < row as int {
                    if i % 128 >= k {
                        old(buf)@[i - k]
                    } else {
                        false
                    }
                } else {
                    old(buf)@[i]
                }),
        decreases h - row,
    {
        let mut col: usize = w;
        while col > clear_to
            invariant
                buf@.len() == MAX_SCREEN_SIZE,
                w <= HI_RES_WIDTH,
                h <= HI_RES_HEIGHT,
                clear_to == (if k >= w {
                    w as int
                } else {
                    k as int
                }),
                row < h,
                clear_to <= col <= w,
                forall|i: int|
                    0 <= i < MAX_SCREEN_SIZE ==> buf@[i] == (if i % 128 < w && (i / 128
                        < row as int || (i / 128 == row as int && i % 128 >= col as int)) {
                        if i % 128 >= k {
                            old(buf)@[i - k]
                        } else {
                            false
                        }
                    } else {
                        old(buf)@[i]
                    }),
            decreases col,
        {
            col -= 1;
            let src = (col - k) + row * HI_RES_WIDTH;
            let dst = col + row * HI_RES_WIDTH;
            proof {
                lemma_row_col((col - k) as int, row as int);
                lemma_row_col(col as int, row as int);
            }
            let v = buf[src];
            buf[dst] = v;
        }
        let mut col2: usize = clear_to;
        while col2 > 0
            invariant
                buf@.len() == MAX_SCREEN_SIZE,
                w <= HI_RES_WIDTH,
                h <= HI_RES_HEIGHT,
                clear_to == (if k >= w {
                    w as int
                } else {
                    k as int
                }),
                row < h,
                col2 <= clear_to,
                forall|i: int|
                    0 <= i < MAX_SCREEN_SIZE ==> buf@[i] == (if i % 128 < w && (i / 128
                        < row as int || (i / 128 == row as int && i % 128 >= col2 as int)) {
                        if i % 128 >= k {
                            old(buf)@[i - k]
                        } else {
                            false
                        }
                    } else {
                        old(buf)@[i]
                    }),
            decreases col2,
        {
            col2 -= 1;
            let idx = col2 + row * HI_RES_WIDTH;
            proof {
                lemma_row_col(col2 as int, row as int);
            }
            buf[idx] = false;
        }
        row += 1;
    }
    proof {
        assert forall|i: int| 0 <= i < MAX_SCREEN_SIZE implies buf@[i] == scrolled_right(
            old(buf)@,
            w as int,
            h as int,
            k as int,
        )[i] by {
            if i % 128 < w && i / 128 < h && i % 128 >= k {
                lemma_row_col(i % 128 - k, i / 128);
            }
        }
        assert(buf@ =~= scrolled_right(old(buf)@, w as int, h as int, k as int));
    }
}

/// Bit `col` (most significant first) of one sprite row read at `addr`:
/// one byte per row for 8-column sprites, two for 16-column sprites.
pub open spec fn sprite_bit(mem: Seq<u8>, addr: int, wide: bool, col: int) -> bool {
    if wide && col >= 8 {
        mem[addr + 1] & (0x80u8 >> (col - 8)) != 0
    } else {
        mem[addr] & (0x80u8 >> col) != 0
    }
}

/// A single buffer under a partial sprite draw: the buffer so far and
/// whether any pixel has gone from set to clear.
pub struct DrawAcc {
    pub buf: Seq<bool>,
    pub hit: bool,
}

/// A finished or aborted sprite draw over a single buffer.
pub struct DrawOut {
    pub buf: Seq<bool>,
    pub hit: bool,
    pub err: Option<VmError>,
}

/// Drawing the first `cols` bits of the sprite row at `addr` onto a buffer:
/// each set bit XORs the pixel at the wrapped column, and a collision is
/// recorded when a set pixel is cleared.
pub open spec fn draw_cols_buf(
    s: Seq<bool>,
    mem: Seq<u8>,
    addr: int,
    wide: bool,
    xc: int,
    py: int,
    w: int,
    cols: nat,
) -> DrawAcc
    decreases cols,
{
    if cols == 0 {
        DrawAcc { buf: s, hit: false }
    } else {
        let a = draw_cols_buf(s, mem, addr, wide, xc, py, w, (cols - 1) as nat);
        let col = cols - 1;
        if sprite_bit(mem, addr, wide, col) {
            let idx = (xc + col) % w + py * 128;
            DrawAcc { buf: a.buf.update(idx, !a.buf[idx]), hit: a.hit || a.buf[idx] }
        } else {
            a
        }
    }
}

/// Drawing the first `rows` rows of a sprite onto a buffer. A row whose
/// bytes lie beyond memory aborts the draw with the rows before it applied.
pub open spec fn draw_rows_buf(
    s: Seq<bool>,
    mem: Seq<u8>,
    i_reg: int,
    wide: bool,
    xc: int,
    yc: int,
    w: int,
    h: int,
    rows: nat,
) -> DrawOut
    decreases rows,
{
    if rows == 0 {
        DrawOut { buf: s, hit: false, err: None }
    } else {
        let d = draw_rows_buf(s, mem, i_reg, wide, xc, yc, w, h, (rows - 1) as nat);
        if d.err is Some {
            d
        } else {
            let row = rows - 1;
            let addr = i_reg + (if wide {
                row * 2
            } else {
                row
            });
            let last = if wide {
                addr + 1
            } else {
                addr
            };
            if last >= RAM_SIZE {
                DrawOut { err: Some(VmError::MemoryOutOfBounds), ..d }
            } else {
                let a = draw_cols_buf(
                    d.buf,
                    mem,
                    addr,
                    wide,
                    xc,
                    (yc + row) % h,
                    w,
                    if wide {
                        16nat
                    } else {
                        8nat
                    },
                );
                DrawOut { buf: a.buf, hit: d.hit || a.hit, err: None }
            }
        }
    }
}

/// Once a sprite draw has aborted, later rows change nothing.
proof fn lemma_draw_rows_frozen(
    s: Seq<bool>,
    mem: Seq<u8>,
    i_reg: int,
    wide: bool,
    xc: int,
    yc: int,
    w: int,
    h: int,
    k: nat,
    n: nat,
)
    requires
        k <= n,
        draw_rows_buf(s, mem, i_reg, wide, xc, yc, w, h, k).err is Some,
    ensures
        draw_rows_buf(s, mem, i_reg, wide, xc, yc, w, h, n) == draw_rows_buf(
            s,
            mem,
            i_reg,
            wide,
            xc,
            yc,
            w,
            h,
            k,
        ),
    decreases n,
{
    if n > k {
        lemma_draw_rows_frozen(s, mem, i_reg, wide, xc, yc, w, h, k, (n - 1) as nat);
    }
}

/// Draws an `n`-row sprite onto the primary screen buffer with wraparound,
/// XOR semantics and collision reporting in the flag register: the screen
/// becomes the buffer of `draw_rows_buf`, the flag register reports its
/// collision bit, and the draw fails exactly when a sprite row lies beyond
/// memory, with the rows before it already applied.
#[verifier::loop_isolation(false)]
pub fn draw_sprite_screen(ctx: &mut VmContext, x: usize, y: usize, n: usize, wide: bool) -> (r:
    Result<(), VmError>)
    requires
        old(ctx).wf(),
        x < REGISTER_COUNT,
        y < REGISTER_COUNT,
        n <= 16,
        wide ==> n == 16,
    ensures
        final(ctx).wf(),
        ({
            let regs0 = old(ctx)@.registers.update(15, 0u8);
            let d = draw_rows_buf(
                old(ctx)@.screen,
                old(ctx)@.memory,
                old(ctx)@.i_register as int,
                wide,
                regs0[x as int] as int,
                regs0[y as int] as int,
                old(ctx)@.current_width as int,
                old(ctx)@.current_height as int,
                n as nat,
            );
            final(ctx)@ == (MState {
                screen: d.buf,
                registers: old(ctx)@.registers.update(15, flag_of(d.hit)),
                ..old(ctx)@
            }) && r == res_of(d.err)
        }),
{
    let ghost s0 = old(ctx)@.screen;
    let ghost mem0 = old(ctx)@.memory;
    let ghost i0 = old(ctx)@.i_register as int;
    let ghost regs0 = old(ctx)@.registers.update(15, 0u8);
    let ghost xc0 = regs0[x as int] as int;
    let ghost yc0 = regs0[y as int] as int;
    let ghost w0 = old(ctx)@.current_width as int;
    let ghost h0 = old(ctx)@.current_height as int;

    ctx.registers[15] = 0;
    let x_coord = ctx.registers[x] as usize;
    let y_coord = ctx.registers[y] as usize;
    let w = ctx.current_width;
    let h = ctx.current_height;
    let mut hit: bool = false;

    let mut row: usize = 0;
    while row < n
        invariant
            old(ctx).wf(),
            ctx.wf(),
            x < REGISTER_COUNT,
            y < REGISTER_COUNT,
            n <= 16,
            row <= n,
            x_coord == xc0,
            y_coord == yc0,
            x_coord <= 255,
            y_coord <= 255,
            w == w0,
            h == h0,
            0 < w <= HI_RES_WIDTH,
            0 < h <= HI_RES_HEIGHT,
            ({
                let d = draw_rows_buf(s0, mem0, i0, wide, xc0, yc0, w0, h0, row as nat);
                d.err is None && hit == d.hit && ctx@ == (MState {
                    screen: d.buf,
                    registers: old(ctx)@.registers.update(15, flag_of(d.hit)),
                    ..old(ctx)@
                })
            }),
        decreases n - row,
    {
        let ghost dprev = draw_rows_buf(s0, mem0, i0, wide, xc0, yc0, w0, h0, row as nat);
        let addr = (ctx.i_register as usize) + (if wide {
            row * 2
        } else {
            row
        });
        let last = if wide {
            addr + 1
        } else {
            addr
        };
        if last >= RAM_SIZE {
            proof {
                lemma_draw_rows_frozen(
                    s0,
                    mem0,
                    i0,
                    wide,
                    xc0,
                    yc0,
                    w0,
                    h0,
                    (row + 1) as nat,
                    n as nat,
                );
            }
            return Err(VmError::MemoryOutOfBounds);
        }
        let pixels_hi = ctx.memory[addr];
        let pixels_lo = if wide {
            ctx.memory[addr + 1]
        } else {
            0u8
        };
        let py = (y_coord + row) % h;
        let nbits: usize = if wide {
            16
        } else {
            8
        };
        let mut col: usize = 0;
        while col < nbits
            invariant
                old(ctx).wf(),
                ctx.wf(),
                x < REGISTER_COUNT,
                y < REGISTER_COUNT,
                n <= 16,
                row < n,
                col <= nbits,
                x_coord == xc0,
                y_coord == yc0,
                x_coord <= 255,
                y_coord <= 255,
                w == w0,
                h == h0,
                0 < w <= HI_RES_WIDTH,
                0 < h <= HI_RES_HEIGHT,
                ctx.i_register == old(ctx)@.i_register,
                nbits == (if wide {
                    16int
                } else {
                    8int
                }),
                addr == i0 + (if wide {
                    row * 2
                } else {
                    row as int
                }),
                (if wide {
                    addr + 1
                } else {
                    addr as int
                }) < RAM_SIZE,
                pixels_hi == mem0[addr as int],
                wide ==> pixels_lo == mem0[addr + 1],
                py == (yc0 + row) % h0,
                dprev == draw_rows_buf(s0, mem0, i0, wide, xc0, yc0, w0, h0, row as nat),
                dprev.err is None,
                ({
                    let a = draw_cols_buf(dprev.buf, mem0, addr as int, wide, xc0, py as int, w0,
                        col as nat);
                    hit == (dprev.hit || a.hit) && ctx@ == (MState {
                        screen: a.buf,
                        registers: old(ctx)@.registers.update(15, flag_of(dprev.hit || a.hit)),
                        ..old(ctx)@
                    })
                }),
            decreases nbits - col,
        {
            let bit = if col < 8 {
                (pixels_hi & (0x80u8 >> col)) != 0
            } else {
                (pixels_lo & (0x80u8 >> (col - 8))) != 0
            };
            proof {
                assert(bit == sprite_bit(mem0, addr as int, wide, col as int));
            }
            if bit {
                let px = (x_coord + col) % w;
                let idx = px + py * HI_RES_WIDTH;
                let v = ctx.screen[idx];
                if v {
                    ctx.registers[15] = 1;
                    hit = true;
                    proof {
                        assert(ctx.registers@ =~= old(ctx)@.registers.update(15, 1u8));
                    }
                }
                ctx.screen[idx] = !v;
            }
            col += 1;
            proof {
                let a = draw_cols_buf(dprev.buf, mem0, addr as int, wide, xc0, py as int, w0,
                    (col - 1) as nat);
                let anew = draw_cols_buf(dprev.buf, mem0, addr as int, wide, xc0, py as int, w0,
                    col as nat);
                assert(anew == if sprite_bit(mem0, addr as int, wide, col - 1) {
                    let idx = (xc0 + (col - 1)) % w0 + (py as int) * 128;
                    DrawAcc { buf: a.buf.update(idx, !a.buf[idx]), hit: a.hit || a.buf[idx] }
                } else {
                    a
                });
            }
        }
        row += 1;
    }
    Ok(())
}

/// A plane pair under a partial masked draw: both planes so far and whether
/// any pixel of a participating plane has gone from set to clear.
pub struct PlaneAcc {
    pub p1: Seq<bool>,
    pub p2: Seq<bool>,
    pub hit: bool,
}

/// A finished or aborted masked draw over a plane pair.
pub struct PlaneOut {
    pub p1: Seq<bool>,
    pub p2: Seq<bool>,
    pub hit: bool,
    pub err: Option<VmError>,
}

/// Drawing the first `cols` bits of the one-byte sprite row at `addr` onto
/// the planes selected by `mask`: each set bit XORs the wrapped pixel of
/// every selected plane, and a collision is recorded when a set pixel of a
/// selected plane is cleared.
pub open spec fn masked_draw_cols(
    p1: Seq<bool>,
    p2: Seq<bool>,
    mem: Seq<u8>,
    addr: int,
    mask: u8,
    xc: int,
    py: int,
    w: int,
    cols: nat,
) -> PlaneAcc
    decreases cols,
{
    if cols == 0 {
        PlaneAcc { p1, p2, hit: false }
    } else {
        let a = masked_draw_cols(p1, p2, mem, addr, mask, xc, py, w, (cols - 1) as nat);
        let col = cols - 1;
        if sprite_bit(mem, addr, false, col) {
            let idx = (xc + col) % w + py * 128;
            let q1 = if mask & 1 != 0 {
                a.p1.update(idx, !a.p1[idx])
            } else {
                a.p1
            };
            let h1 = mask & 1 != 0 && a.p1[idx];
            let q2 = if mask & 2 != 0 {
                a.p2.update(idx, !a.p2[idx])
            } else {
                a.p2
            };
            let h2 = mask & 2 != 0 && a.p2[idx];
            PlaneAcc { p1: q1, p2: q2, hit: a.hit || h1 || h2 }
        } else {
            a
        }
    }
}

/// Drawing the first `rows` one-byte rows of a sprite onto the planes
/// selected by `mask`. A row whose byte lies beyond memory aborts the draw
/// with the rows before it applied.
pub open spec fn masked_draw_rows(
    p1: Seq<bool>,
    p2: Seq<bool>,
    mem: Seq<u8>,
    i_reg: int,
    mask: u8,
    xc: int,
    yc: int,
    w: int,
    h: int,
    rows: nat,
) -> PlaneOut
    decreases rows,
{
    if rows == 0 {
        PlaneOut { p1, p2, hit: false, err: None }
    } else {
        let d = masked_draw_rows(p1, p2, mem, i_reg, mask, xc, yc, w, h, (rows - 1) as nat);
        if d.err is Some {
            d
        } else {
            let row = rows - 1;
            let addr = i_reg + row;
            if addr >= RAM_SIZE {
                PlaneOut { err: Some(VmError::MemoryOutOfBounds), ..d }
            } else {
                let a = masked_draw_cols(d.p1, d.p2, mem, addr, mask, xc, (yc + row) % h, w, 8);
                PlaneOut { p1: a.p1, p2: a.p2, hit: d.hit || a.hit, err: None }
            }
        }
    }
}

/// Once a masked draw has aborted, later rows change nothing.
proof fn lemma_masked_rows_frozen(
    p1: Seq<bool>,
    p2: Seq<bool>,
    mem: Seq<u8>,
    i_reg: int,
    mask: u8,
    xc: int,
    yc: int,
    w: int,
    h: int,
    k: nat,
    n: nat,
)
    requires
        k <= n,
        masked_draw_rows(p1, p2, mem, i_reg, mask, xc, yc, w, h, k).err is Some,
    ensures
        masked_draw_rows(p1, p2, mem, i_reg, mask, xc, yc, w, h, n) == masked_draw_rows(
            p1,
            p2,
            mem,
            i_reg,
            mask,
            xc,
            yc,
            w,
            h,
            k,
        ),
    decreases n,
{
    if n > k {
        lemma_masked_rows_frozen(p1, p2, mem, i_reg, mask, xc, yc, w, h, k, (n - 1) as nat);
    }
}

/// Drawing the first `cols` bits of row `row` of a two-plane 16-column
/// sprite. The first plane's bitmap lies at the index register; the second
/// plane takes the bitmap 32 bytes later when both planes are selected, and
/// mirrors the first plane's bitmap otherwise. A second-plane byte beyond
/// memory aborts the draw at the first set bit that needs it.
pub open spec fn masked_draw16_cols(
    p1: Seq<bool>,
    p2: Seq<bool>,
    mem: Seq<u8>,
    i_reg: int,
    row: int,
    mask: u8,
    xc: int,
    py: int,
    w: int,
    cols: nat,
) -> PlaneOut
    decreases cols,
{
    if cols == 0 {
        PlaneOut { p1, p2, hit: false, err: None }
    } else {
        let a = masked_draw16_cols(p1, p2, mem, i_reg, row, mask, xc, py, w, (cols - 1) as nat);
        if a.err is Some {
            a
        } else {
            let col = cols - 1;
            let addr = i_reg + row * 2;
            if sprite_bit(mem, addr, true, col) {
                let idx = (xc + col) % w + py * 128;
                let q1 = if mask & 1 != 0 {
                    a.p1.update(idx, !a.p1[idx])
                } else {
                    a.p1
                };
                let h1 = mask & 1 != 0 && a.p1[idx];
                if mask & 2 != 0 {
                    let addr2 = i_reg + 32 + row * 2;
                    if mask == 3 && addr2 + 1 >= RAM_SIZE {
                        PlaneOut {
                            p1: q1,
                            p2: a.p2,
                            hit: a.hit || h1,
                            err: Some(VmError::MemoryOutOfBounds),
                        }
                    } else {
                        let bit2 = if mask == 3 {
                            sprite_bit(mem, addr2, true, col)
                        } else {
                            true
                        };
                        let q2 = if bit2 {
                            a.p2.update(idx, !a.p2[idx])
                        } else {
                            a.p2
                        };
                        let h2 = bit2 && a.p2[idx];
                        PlaneOut { p1: q1, p2: q2, hit: a.hit || h1 || h2, err: None }
                    }
                } else {
                    PlaneOut { p1: q1, p2: a.p2, hit: a.hit || h1, err: None }
                }
            } else {
                a
            }
        }
    }
}

/// Once a two-plane sprite row has aborted, later columns change nothing.
proof fn lemma_masked16_cols_frozen(
    p1: Seq<bool>,
    p2: Seq<bool>,
    mem: Seq<u8>,
    i_reg: int,
    row: int,
    mask: u8,
    xc: int,
    py: int,
    w: int,
    k: nat,
    n: nat,
)
    requires
        k <= n,
        masked_draw16_cols(p1, p2, mem, i_reg, row, mask, xc, py, w, k).err is Some,
    ensures
        masked_draw16_cols(p1, p2, mem, i_reg, row, mask, xc, py, w, n) == masked_draw16_cols(
            p1,
            p2,
            mem,
            i_reg,
            row,
            mask,
            xc,
            py,
            w,
            k,
        ),
    decreases n,
{
    if n > k {
        lemma_masked16_cols_frozen(p1, p2, mem, i_reg, row, mask, xc, py, w, k, (n - 1) as nat);
    }
}

/// Drawing the first `rows` rows of a two-plane 16-column sprite. A
/// first-plane row byte beyond memory aborts before the row; a second-plane
/// byte beyond memory aborts within it.
pub open spec fn masked_draw16_rows(
    p1: Seq<bool>,
    p2: Seq<bool>,
    mem: Seq<u8>,
    i_reg: int,
    mask: u8,
    xc: int,
    yc: int,
    w: int,
    h: int,
    rows: nat,
) -> PlaneOut
    decreases rows,
{
    if rows == 0 {
        PlaneOut { p1, p2, hit: false, err: None }
    } else {
        let d = masked_draw16_rows(p1, p2, mem, i_reg, mask, xc, yc, w, h, (rows - 1) as nat);
        if d.err is Some {
            d
        } else {
            let row = rows - 1;
            let addr = i_reg + row * 2;
            if addr + 1 >= RAM_SIZE {
                PlaneOut { err: Some(VmError::MemoryOutOfBounds), ..d }
            } else {
                let a = masked_draw16_cols(
                    d.p1,
                    d.p2,
                    mem,
                    i_reg,
                    row,
                    mask,
                    xc,
                    (yc + row) % h,
                    w,
                    16,
                );
                PlaneOut { p1: a.p1, p2: a.p2, hit: d.hit || a.hit, err: a.err }
            }
        }
    }
}

/// Once a two-plane sprite draw has aborted, later rows change nothing.
proof fn lemma_masked16_rows_frozen(
    p1: Seq<bool>,
    p2: Seq<bool>,
    mem: Seq<u8>,
    i_reg: int,
    mask: u8,
    xc: int,
    yc: int,
    w: int,
    h: int,
    k: nat,
    n: nat,
)
    requires
        k <= n,
        masked_draw16_rows(p1, p2, mem, i_reg, mask, xc, yc, w, h, k).err is Some,
    ensures
        masked_draw16_rows(p1, p2, mem, i_reg, mask, xc, yc, w, h, n) == masked_draw16_rows(
            p1,
            p2,
            mem,
            i_reg,
            mask,
            xc,
            yc,
            w,
            h,
            k,
        ),
    decreases n,
{
    if n > k {
        lemma_masked16_rows_frozen(p1, p2, mem, i_reg, mask, xc, yc, w, h, k, (n - 1) as nat);
    }
}

/// Draws a `k`-row, 8-column sprite onto the planes selected by the current
/// plane mask, with wraparound, XOR semantics and collision reporting in the
/// flag register; fails exactly when a sprite row lies beyond memory, with
/// the rows before it already applied.
#[verifier::loop_isolation(false)]
pub fn draw_sprite_planes(ctx: &mut VmContext, x: usize, y: usize, k: usize) -> (r: Result<
    (),
    VmError,
>)
    requires
        old(ctx).wf(),
        x < REGISTER_COUNT,
        y < REGISTER_COUNT,
        k <= 15,
    ensures
        final(ctx).wf(),
        ({
            let regs0 = old(ctx)@.registers.update(15, 0u8);
            let d = masked_draw_rows(
                old(ctx)@.plane_1,
                old(ctx)@.plane_2,
                old(ctx)@.memory,
                old(ctx)@.i_register as int,
                old(ctx)@.plane_mask,
                regs0[x as int] as int,
                regs0[y as int] as int,
                old(ctx)@.current_width as int,
                old(ctx)@.current_height as int,
                k as nat,
            );
            final(ctx)@ == (MState {
                plane_1: d.p1,
                plane_2: d.p2,
                registers: old(ctx)@.registers.update(15, flag_of(d.hit)),
                ..old(ctx)@
            }) && r == res_of(d.err)
        }),
{
    let ghost p10 = old(ctx)@.plane_1;
    let ghost p20 = old(ctx)@.plane_2;
    let ghost mem0 = old(ctx)@.memory;
    let ghost i0 = old(ctx)@.i_register as int;

    ctx.registers[15] = 0;
    let x_coord = ctx.registers[x] as usize;
    let y_coord = ctx.registers[y] as usize;
    let w = ctx.current_width;
    let h = ctx.current_height;
    let mask = ctx.plane_mask;
    let mut hit: bool = false;

    let ghost xc0 = x_coord as int;
    let ghost yc0 = y_coord as int;
    let ghost w0 = w as int;
    let ghost h0 = h as int;

    let mut row: usize = 0;
    while row < k
        invariant
            ctx.wf(),
            row <= k,
            ({
                let d = masked_draw_rows(p10, p20, mem0, i0, mask, xc0, yc0, w0, h0, row as nat);
                d.err is None && hit == d.hit && ctx@ == (MState {
                    plane_1: d.p1,
                    plane_2: d.p2,
                    registers: old(ctx)@.registers.update(15, flag_of(d.hit)),
                    ..old(ctx)@
                })
            }),
        decreases k - row,
    {
        let ghost dprev = masked_draw_rows(p10, p20, mem0, i0, mask, xc0, yc0, w0, h0, row as nat);
        let addr = (ctx.i_register as usize) + row;
        if addr >= RAM_SIZE {
            proof {
                lemma_masked_rows_frozen(
                    p10,
                    p20,
                    mem0,
                    i0,
                    mask,
                    xc0,
                    yc0,
                    w0,
                    h0,
                    (row + 1) as nat,
                    k as nat,
                );
            }
            return Err(VmError::MemoryOutOfBounds);
        }
        let pixels = ctx.memory[addr];
        let py = (y_coord + row) % h;
        let mut col: usize = 0;
        while col < 8
            invariant
                ctx.wf(),
                row < k,
                col <= 8,
                py == (yc0 + row) % h0,
                pixels == mem0[addr as int],
                ({
                    let a = masked_draw_cols(dprev.p1, dprev.p2, mem0, addr as int, mask, xc0,
                        py as int, w0, col as nat);
                    hit == (dprev.hit || a.hit) && ctx@ == (MState {
                        plane_1: a.p1,
                        plane_2: a.p2,
                        registers: old(ctx)@.registers.update(15, flag_of(dprev.hit || a.hit)),
                        ..old(ctx)@
                    })
                }),
            decreases 8 - col,
        {
            let bit = (pixels & (0x80u8 >> col)) != 0;
            if bit {
                let px = (x_coord + col) % w;
                let idx = px + py * HI_RES_WIDTH;
                if mask & 1 != 0 {
                    let v1 = ctx.plane_1[idx];
                    if v1 {
                        ctx.registers[15] = 1;
                        hit = true;
                        proof {
                            assert(ctx.registers@ =~= old(ctx)@.registers.update(15, 1u8));
                        }
                    }
                    ctx.plane_1[idx] = !v1;
                }
                if mask & 2 != 0 {
                    let v2 = ctx.plane_2[idx];
                    if v2 {
                        ctx.registers[15] = 1;
                        hit = true;
                        proof {
                            assert(ctx.registers@ =~= old(ctx)@.registers.update(15, 1u8));
                        }
                    }
                    ctx.plane_2[idx] = !v2;
                }
            }
            col += 1;
        }
        row += 1;
    }
    Ok(())
}

/// Draws a 16-row, 16-column sprite onto the planes selected by the current
/// plane mask. When both planes are selected the second plane takes its own
/// bitmap 32 bytes after the first; with one plane in scope it mirrors the
/// first plane's bitmap. Fails exactly when a needed sprite byte lies beyond
/// memory, with everything drawn up to that point already applied.
#[verifier::loop_isolation(false)]
pub fn draw_sprite_planes16(ctx: &mut VmContext, x: usize, y: usize) -> (r: Result<(), VmError>)
    requires
        old(ctx).wf(),
        x < REGISTER_COUNT,
        y < REGISTER_COUNT,
    ensures
        final(ctx).wf(),
        ({
            let regs0 = old(ctx)@.registers.update(15, 0u8);
            let d = masked_draw16_rows(
                old(ctx)@.plane_1,
                old(ctx)@.plane_2,
                old(ctx)@.memory,
                old(ctx)@.i_register as int,
                old(ctx)@.plane_mask,
                regs0[x as int] as int,
                regs0[y as int] as int,
                old(ctx)@.current_width as int,
                old(ctx)@.current_height as int,
                16,
            );
            final(ctx)@ == (MState {
                plane_1: d.p1,
                plane_2: d.p2,
                registers: old(ctx)@.registers.update(15, flag_of(d.hit)),
                ..old(ctx)@
            }) && r == res_of(d.err)
        }),
{
    let ghost p10 = old(ctx)@.plane_1;
    let ghost p20 = old(ctx)@.plane_2;
    let ghost mem0 = old(ctx)@.memory;
    let ghost i0 = old(ctx)@.i_register as int;

    ctx.registers[15] = 0;
    let x_coord = ctx.registers[x] as usize;
    let y_coord = ctx.registers[y] as usize;
    let w = ctx.current_width;
    let h = ctx.current_height;
    let mask = ctx.plane_mask;
    let mut hit: bool = false;

    let ghost xc0 = x_coord as int;
    let ghost yc0 = y_coord as int;
    let ghost w0 = w as int;
    let ghost h0 = h as int;

    let mut row: usize = 0;
    while row < 16
        invariant
            ctx.wf(),
            row <= 16,
            ({
                let d = masked_draw16_rows(p10, p20, mem0, i0, mask, xc0, yc0, w0, h0, row as nat);
                d.err is None && hit == d.hit && ctx@ == (MState {
                    plane_1: d.p1,
                    plane_2: d.p2,
                    registers: old(ctx)@.registers.update(15, flag_of(d.hit)),
                    ..old(ctx)@
                })
            }),
        decreases 16 - row,
    {
        let ghost dprev = masked_draw16_rows(p10, p20, mem0, i0, mask, xc0, yc0, w0, h0,
            row as nat);
        let addr = (ctx.i_register as usize) + row * 2;
        if addr + 1 >= RAM_SIZE {
            proof {
                lemma_masked16_rows_frozen(
                    p10,
                    p20,
                    mem0,
                    i0,
                    mask,
                    xc0,
                    yc0,
                    w0,
                    h0,
                    (row + 1) as nat,
                    16,
                );
            }
            return Err(VmError::MemoryOutOfBounds);
        }
        let pixels_hi = ctx.memory[addr];
        let pixels_lo = ctx.memory[addr + 1];
        let py = (y_coord + row) % h;
        let mut col: usize = 0;
        while col < 16
            invariant
                ctx.wf(),
                row < 16,
                col <= 16,
                py == (yc0 + row) % h0,
                addr == i0 + row * 2,
                addr + 1 < RAM_SIZE,
                pixels_hi == mem0[addr as int],
                pixels_lo == mem0[addr + 1],
                ({
                    let a = masked_draw16_cols(dprev.p1, dprev.p2, mem0, i0, row as int, mask, xc0,
                        py as int, w0, col as nat);
                    a.err is None && hit == (dprev.hit || a.hit) && ctx@ == (MState {
                        plane_1: a.p1,
                        plane_2: a.p2,
                        registers: old(ctx)@.registers.update(15, flag_of(dprev.hit || a.hit)),
                        ..old(ctx)@
                    })
                }),
            decreases 16 - col,
        {
            let bit = if col < 8 {
                (pixels_hi & (0x80u8 >> col)) != 0
            } else {
                (pixels_lo & (0x80u8 >> (col - 8))) != 0
            };
            if bit {
                let px = (x_coord + col) % w;
                let idx = px + py * HI_RES_WIDTH;
                if mask & 1 != 0 {
                    let v1 = ctx.plane_1[idx];
                    if v1 {
                        ctx.registers[15] = 1;
                        hit = true;
                        proof {
                            assert(ctx.registers@ =~= old(ctx)@.registers.update(15, 1u8));
                        }
                    }
                    ctx.plane_1[idx] = !v1;
                }
                if mask & 2 != 0 {
                    let bit2: bool;
                    if mask == 3 {
                        let addr2 = (ctx.i_register as usize) + 32 + row * 2;
                        if addr2 + 1 >= RAM_SIZE {
                            proof {
                                lemma_masked16_cols_frozen(
                                    dprev.p1,
                                    dprev.p2,
                                    mem0,
                                    i0,
                                    row as int,
                                    mask,
                                    xc0,
                                    py as int,
                                    w0,
                                    (col + 1) as nat,
                                    16,
                                );
                                lemma_masked16_rows_frozen(
                                    p10,
                                    p20,
                                    mem0,
                                    i0,
                                    mask,
                                    xc0,
                                    yc0,
                                    w0,
                                    h0,
                                    (row + 1) as nat,
                                    16,
                                );
                            }
                            return Err(VmError::MemoryOutOfBounds);
                        }
                        let hi2 = ctx.memory[addr2];
                        let lo2 = ctx.memory[addr2 + 1];
                        bit2 = if col < 8 {
                            (hi2 & (0x80u8 >> col)) != 0
                        } else {
                            (lo2 & (0x80u8 >> (col - 8))) != 0
                        };
                    } else {
                        bit2 = true;
                    }
                    if bit2 {
                        let v2 = ctx.plane_2[idx];
                        if v2 {
                            ctx.registers[15] = 1;
                            hit = true;
                            proof {
                                assert(ctx.registers@ =~= old(ctx)@.registers.update(15, 1u8));
                            }
                        }
                        ctx.plane_2[idx] = !v2;
                    }
                }
            }
            col += 1;
        }
        row += 1;
    }
    Ok(())
}

} // verus!
