//! Laws of the machine, proved once and for all over the functional
//! specification of the opcode tables.

use vstd::prelude::*;
use crate::conf::{MAX_SCREEN_SIZE, RAM_SIZE, REGISTER_COUNT, STACK_SIZE};
use crate::display::{cleared_viewport, masked_draw_cols, masked_draw_rows, sprite_bit};
use crate::error::VmError;
use crate::model::{MState, wf_state};
use crate::vm::{base_step, op_call, op_load, op_return, op_store};
use crate::xo::xo_draw;

verus! {

/// The buffer cell one sprite column lands on, with wraparound.
pub open spec fn draw_target(xc: int, py: int, w: int, col: int) -> int {
    (xc + col) % w + py * 128
}

/// Whether one of the first `cols` set sprite bits lands on cell `i`.
pub open spec fn col_hits(
    mem: Seq<u8>,
    addr: int,
    xc: int,
    py: int,
    w: int,
    cols: nat,
    i: int,
) -> bool {
    exists|col: int|
        0 <= col < cols && sprite_bit(mem, addr, false, col) && (#[trigger] draw_target(
            xc,
            py,
            w,
            col,
        )) == i
}

/// Shifting by less than the modulus moves every residue.
proof fn lemma_mod_shift_distinct(a: int, d: int, w: int)
    by (nonlinear_arith)
    requires
        0 <= a,
        0 < d < w,
    ensures
        (a + d) % w != a % w,
{
}

/// Distinct columns of one 8-column sprite row land on distinct cells.
proof fn lemma_target_injective(xc: int, py: int, w: int, c1: int, c2: int)
    requires
        0 <= xc,
        0 <= py,
        8 <= w,
        0 <= c1 < c2 < 8,
    ensures
        draw_target(xc, py, w, c1) != draw_target(xc, py, w, c2),
{
    lemma_mod_shift_distinct(xc + c1, c2 - c1, w);
}

/// What a masked one-byte sprite row does to a plane pair, cell by cell,
/// with both planes selected: a cell a set bit lands on is XOR-toggled in
/// both planes — each cell at most once — and a collision is recorded
/// exactly when some set bit lands on a cell that was set in either plane.
proof fn lemma_masked_cols_char(
    p1: Seq<bool>,
    p2: Seq<bool>,
    mem: Seq<u8>,
    addr: int,
    xc: int,
    py: int,
    w: int,
    cols: nat,
)
    requires
        p1.len() == MAX_SCREEN_SIZE,
        p2.len() == MAX_SCREEN_SIZE,
        0 <= xc,
        0 <= py < 64,
        8 <= w <= 128,
        cols <= 8,
    ensures
        ({
            let a = masked_draw_cols(p1, p2, mem, addr, 3, xc, py, w, cols);
            &&& a.p1.len() == MAX_SCREEN_SIZE
            &&& a.p2.len() == MAX_SCREEN_SIZE
            &&& forall|i: int|
                0 <= i < MAX_SCREEN_SIZE ==> a.p1[i] == (if col_hits(
                    mem,
                    addr,
                    xc,
                    py,
                    w,
                    cols,
                    i,
                ) {
                    !p1[i]
                } else {
                    p1[i]
                })
            &&& forall|i: int|
                0 <= i < MAX_SCREEN_SIZE ==> a.p2[i] == (if col_hits(
                    mem,
                    addr,
                    xc,
                    py,
                    w,
                    cols,
                    i,
                ) {
                    !p2[i]
                } else {
                    p2[i]
                })
            &&& a.hit == exists|col: int|
                0 <= col < cols && (#[trigger] sprite_bit(mem, addr, false, col)) && (p1[draw_target(
                    xc,
                    py,
                    w,
                    col,
                )] || p2[draw_target(xc, py, w, col)])
        }),
    decreases cols,
{
    assert(3u8 & 1 != 0 && 3u8 & 2 != 0) by (bit_vector);
    if cols > 0 {
        lemma_masked_cols_char(p1, p2, mem, addr, xc, py, w, (cols - 1) as nat);
        let prev = masked_draw_cols(p1, p2, mem, addr, 3, xc, py, w, (cols - 1) as nat);
        let a = masked_draw_cols(p1, p2, mem, addr, 3, xc, py, w, cols);
        let col = cols - 1;
        if sprite_bit(mem, addr, false, col) {
            let idx = draw_target(xc, py, w, col);
            assert(0 <= (xc + col) % w < w);
            assert(0 <= idx < MAX_SCREEN_SIZE);
            // No earlier column lands on this cell.
            assert forall|c: int| 0 <= c < col implies (#[trigger] draw_target(xc, py, w, c))
                != idx by {
                lemma_target_injective(xc, py, w, c, col);
            }
            assert(!col_hits(mem, addr, xc, py, w, (cols - 1) as nat, idx));
            assert(prev.p1[idx] == p1[idx]);
            assert(prev.p2[idx] == p2[idx]);
            assert(col_hits(mem, addr, xc, py, w, cols, idx));
            // Cells other than this one are hit now exactly when they were
            // hit before this column.
            assert forall|i: int| 0 <= i < MAX_SCREEN_SIZE && i != idx implies col_hits(
                mem,
                addr,
                xc,
                py,
                w,
                cols,
                i,
            ) == col_hits(mem, addr, xc, py, w, (cols - 1) as nat, i) by {
                if col_hits(mem, addr, xc, py, w, cols, i) {
                    let c = choose|c: int|
                        0 <= c < cols && sprite_bit(mem, addr, false, c) && (#[trigger] draw_target(
                            xc,
                            py,
                            w,
                            c,
                        )) == i;
                    assert(c != col);
                    assert(col_hits(mem, addr, xc, py, w, (cols - 1) as nat, i));
                }
            }
        } else {
            // This column contributes nothing: the hit sets coincide.
            assert forall|i: int| 0 <= i < MAX_SCREEN_SIZE implies col_hits(
                mem,
                addr,
                xc,
                py,
                w,
                cols,
                i,
            ) == col_hits(mem, addr, xc, py, w, (cols - 1) as nat, i) by {
                if col_hits(mem, addr, xc, py, w, cols, i) {
                    let c = choose|c: int|
                        0 <= c < cols && sprite_bit(mem, addr, false, c) && (#[trigger] draw_target(
                            xc,
                            py,
                            w,
                            c,
                        )) == i;
                    assert(c != col);
                    assert(col_hits(mem, addr, xc, py, w, (cols - 1) as nat, i));
                }
            }
        }
    }
}

/// Drawing the same one-row sprite twice at the same coordinates with both
/// planes selected, onto cells that started clear, turns the targeted
/// pixels of both planes on and then off again — the XOR draw is
/// self-inverse — with no collision on the first draw and, as long as the
/// sprite has any set bit, a collision reported on the second.
pub proof fn law_double_masked_draw(m: MState, x: int, y: int)
    requires
        wf_state(m),
        0 <= x < REGISTER_COUNT,
        0 <= y < REGISTER_COUNT,
        m.plane_mask == 3,
        m.i_register < RAM_SIZE,
        forall|col: int|
            (0 <= col < 8 && #[trigger] sprite_bit(m.memory, m.i_register as int, false, col))
                ==> ({
                let regs0 = m.registers.update(15, 0u8);
                let idx = draw_target(
                    regs0[x] as int,
                    (regs0[y] as int) % (m.current_height as int),
                    m.current_width as int,
                    col,
                );
                !m.plane_1[idx] && !m.plane_2[idx]
            }),
        exists|col: int|
            0 <= col < 8 && #[trigger] sprite_bit(m.memory, m.i_register as int, false, col),
    ensures
        ({
            let d1 = xo_draw(m, x, y, 1);
            let d2 = xo_draw(d1.m, x, y, 1);
            &&& d1.err is None
            &&& d2.err is None
            &&& d1.m.registers[15] == 0
            &&& d2.m.plane_1 == m.plane_1
            &&& d2.m.plane_2 == m.plane_2
            &&& d2.m.registers[15] == 1
        }),
{
    let regs0 = m.registers.update(15, 0u8);
    let xc = regs0[x] as int;
    let yc = regs0[y] as int;
    let w = m.current_width as int;
    let h = m.current_height as int;
    let py = yc % h;
    let i0 = m.i_register as int;

    reveal_with_fuel(masked_draw_rows, 2);

    let d1 = xo_draw(m, x, y, 1);
    let a1 = masked_draw_cols(m.plane_1, m.plane_2, m.memory, i0, 3, xc, py, w, 8);
    lemma_masked_cols_char(m.plane_1, m.plane_2, m.memory, i0, xc, py, w, 8);
    assert(d1.m.plane_1 == a1.p1 && d1.m.plane_2 == a1.p2);
    assert(!a1.hit);
    assert(d1.m.registers[15] == 0);

    // The second draw reads the same coordinates: zeroing the flag register
    // again gives the same register view.
    let regs0b = d1.m.registers.update(15, 0u8);
    assert(regs0b =~= regs0);

    let d2 = xo_draw(d1.m, x, y, 1);
    let a2 = masked_draw_cols(a1.p1, a1.p2, m.memory, i0, 3, xc, py, w, 8);
    lemma_masked_cols_char(a1.p1, a1.p2, m.memory, i0, xc, py, w, 8);
    assert(d2.m.plane_1 == a2.p1 && d2.m.plane_2 == a2.p2);

    // Toggling twice restores every cell.
    assert forall|i: int| 0 <= i < MAX_SCREEN_SIZE implies a2.p1[i] == m.plane_1[i] by {}
    assert forall|i: int| 0 <= i < MAX_SCREEN_SIZE implies a2.p2[i] == m.plane_2[i] by {}
    assert(a2.p1 =~= m.plane_1);
    assert(a2.p2 =~= m.plane_2);

    // Some set bit lands on a cell the first draw turned on, so the second
    // draw collides.
    let col0 = choose|col: int|
        0 <= col < 8 && #[trigger] sprite_bit(m.memory, i0, false, col);
    let idx0 = draw_target(xc, py, w, col0);
    assert(0 <= (xc + col0) % w < w);
    assert(0 <= idx0 < MAX_SCREEN_SIZE);
    assert(col_hits(m.memory, i0, xc, py, w, 8, idx0));
    assert(a1.p1[idx0]);
    assert(a2.hit);
    assert(d2.m.registers[15] == 1);
}

/// A block register store of registers 0..=x, immediately followed by a
/// block register load from the same index register and the same range,
/// restores the original register values, and neither opcode faults when
/// the range lies inside memory.
pub proof fn law_store_load_roundtrip(m: MState, x: u8, rnd1: u8, rnd2: u8)
    requires
        wf_state(m),
        x < REGISTER_COUNT,
        m.i_register + x < RAM_SIZE,
    ensures
        ({
            let store_op = 0xF055u16 | ((x as u16) << 8);
            let load_op = 0xF065u16 | ((x as u16) << 8);
            let s = base_step(m, store_op, rnd1);
            let l = base_step(s.m, load_op, rnd2);
            s.err is None && l.err is None && l.m.registers == m.registers
        }),
{
    let store_op = 0xF055u16 | ((x as u16) << 8);
    let load_op = 0xF065u16 | ((x as u16) << 8);
    assert((store_op & 0xF000) >> 12 == 0xF && ((store_op & 0x0F00) >> 8) == x as u16 && ((store_op
        & 0x00F0) >> 4) == 5 && (store_op & 0x000F) == 5) by (bit_vector)
        requires
            store_op == 0xF055u16 | ((x as u16) << 8),
            x < 16,
    ;
    assert((load_op & 0xF000) >> 12 == 0xF && ((load_op & 0x0F00) >> 8) == x as u16 && ((load_op
        & 0x00F0) >> 4) == 6 && (load_op & 0x000F) == 5) by (bit_vector)
        requires
            load_op == 0xF065u16 | ((x as u16) << 8),
            x < 16,
    ;
    let s = op_store(m, x as int);
    let l = op_load(s.m, x as int);
    assert(base_step(m, store_op, rnd1) == s);
    assert(base_step(s.m, load_op, rnd2) == l);
    assert forall|j: int| 0 <= j < 16 implies l.m.registers[j] == m.registers[j] by {
        if j <= x {
            assert(s.m.memory[m.i_register + j] == m.registers[j]);
        }
    }
    assert(l.m.registers =~= m.registers);
}

/// Clearing the screen twice in succession leaves it cleared with no
/// fault: the second clear changes nothing.
pub proof fn law_clear_screen_idempotent(m: MState, rnd1: u8, rnd2: u8)
    requires
        wf_state(m),
    ensures
        ({
            let once = base_step(m, 0x00E0, rnd1);
            let twice = base_step(once.m, 0x00E0, rnd2);
            once.err is None && twice.err is None && twice.m == once.m
        }),
{
    assert((0x00E0u16 & 0xF000) >> 12 == 0 && ((0x00E0u16 & 0x0F00) >> 8) == 0 && ((0x00E0u16
        & 0x00F0) >> 4) == 0xE && (0x00E0u16 & 0x000F) == 0) by (bit_vector);
    let once = base_step(m, 0x00E0, rnd1);
    let twice = base_step(once.m, 0x00E0, rnd2);
    let w = m.current_width as int;
    let h = m.current_height as int;
    assert(cleared_viewport(cleared_viewport(m.screen, w, h), w, h) =~= cleared_viewport(
        m.screen,
        w,
        h,
    ));
    assert(twice.m == once.m);
}

/// Stack discipline: a call faults with overflow exactly on a full stack
/// and otherwise pushes the post-fetch program counter; a return faults
/// with underflow exactly on an empty stack and otherwise pops; and a call
/// followed by a return restores the program counter and stack depth.
pub proof fn law_stack_discipline(m: MState, nnn: u16)
    requires
        wf_state(m),
    ensures
        ({
            let c = op_call(m, nnn);
            &&& (c.err is Some <==> m.sp >= STACK_SIZE)
            &&& (c.err is Some ==> c.err == Some(VmError::StackOverflow) && c.m == m)
            &&& (c.err is None ==> c.m.sp == m.sp + 1 && c.m.pc == nnn && c.m.stack[m.sp as int]
                == m.pc)
        }),
        ({
            let r = op_return(m);
            &&& (r.err is Some <==> m.sp == 0)
            &&& (r.err is Some ==> r.err == Some(VmError::StackUnderflow) && r.m == m)
            &&& (r.err is None ==> r.m.sp == m.sp - 1 && r.m.pc == m.stack[m.sp - 1])
        }),
        m.sp < STACK_SIZE ==> ({
            let c = op_call(m, nnn);
            let r = op_return(c.m);
            r.err is None && r.m.pc == m.pc && r.m.sp == m.sp
        }),
{
}

} // verus!
