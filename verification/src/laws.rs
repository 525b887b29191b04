//! Machine-wide properties of the instruction semantics, each proved
//! from the model in [`crate::semantics`] that the executable machine
//! is held to.

use vstd::prelude::*;

use crate::semantics::alu;
use crate::semantics::cell_index;
use crate::semantics::cleared;
use crate::semantics::draw_collision;
use crate::semantics::draw_gfx;
use crate::semantics::draw_hit;
use crate::semantics::mem_with_registers;
use crate::semantics::regs_from_memory;
use crate::semantics::sprite_bit;
use crate::semantics::tick_timers;
use crate::semantics::ticked;
use crate::semantics::State;

verus! {

/// For all byte values of VX and VY, add-with-carry stores their sum
/// modulo 256 in VX, sets the flag register to 1 exactly when the true
/// sum exceeds 255 and to 0 otherwise, and touches no other register.
/// When X selects the flag register itself, the flag write wins.
pub proof fn lemma_add_with_carry(regs: Seq<u8>, x: int, y: int)
    requires
        regs.len() == 16,
        0 <= x < 16,
        0 <= y < 16,
    ensures
        ({
            let a = regs[x];
            let b = regs[y];
            let r = alu(regs, x, y, 4).unwrap();
            &&& alu(regs, x, y, 4) is Some
            &&& r.len() == 16
            &&& (r[15] == 1u8 <==> a + b > 255)
            &&& (r[15] == 0u8 <==> a + b <= 255)
            &&& x != 15 ==> r[x] == (a + b) % 256
            &&& forall|i: int| 0 <= i < 16 && i != x && i != 15 ==> r[i] == regs[i]
        }),
{
}

/// For all byte values of VX and VY, sub-with-borrow stores their
/// difference modulo 256 in VX and sets the flag register to 1 exactly
/// when the subtraction borrows (VX < VY) -- flag 1 on underflow, the
/// machine's own polarity, the opposite of the canonical convention.
/// When X selects the flag register itself, the flag write wins.
pub proof fn lemma_sub_with_borrow(regs: Seq<u8>, x: int, y: int)
    requires
        regs.len() == 16,
        0 <= x < 16,
        0 <= y < 16,
    ensures
        ({
            let a = regs[x];
            let b = regs[y];
            let r = alu(regs, x, y, 5).unwrap();
            &&& alu(regs, x, y, 5) is Some
            &&& r.len() == 16
            &&& (r[15] == 1u8 <==> a < b)
            &&& (r[15] == 0u8 <==> a >= b)
            &&& x != 15 ==> r[x] == (if a >= b { (a - b) as u8 } else { (a + 256 - b) as u8 })
            &&& forall|i: int| 0 <= i < 16 && i != x && i != 15 ==> r[i] == regs[i]
        }),
{
    let a = regs[x];
    let b = regs[y];
    if a >= b {
        vstd::arithmetic::div_mod::lemma_small_mod((a + 256 - b - 256) as nat, 256);
        vstd::arithmetic::div_mod::lemma_mod_sub_multiples_vanish((a + 256 - b) as int, 256);
    } else {
        vstd::arithmetic::div_mod::lemma_small_mod((a + 256 - b) as nat, 256);
    }
}

/// A register dump followed by a register load with the same address
/// register and the same register bound reproduces the register file
/// exactly.
pub proof fn lemma_register_round_trip(mem: Seq<u8>, regs: Seq<u8>, mi: u16, xmax: int)
    requires
        mem.len() == 4096,
        regs.len() == 16,
        0 <= xmax < 16,
        mi + xmax < 4096,
    ensures
        regs_from_memory(regs, mem_with_registers(mem, regs, mi, xmax), mi, xmax) == regs,
{
    assert(regs_from_memory(regs, mem_with_registers(mem, regs, mi, xmax), mi, xmax) =~= regs);
}

/// Clearing the screen erases every trace of the old framebuffer:
/// drawing any sprite right after a clear gives the same framebuffer as
/// drawing it onto a buffer that was never lit, whatever was on screen
/// before.
pub proof fn lemma_draw_after_clear(
    g1: Seq<bool>,
    g2: Seq<bool>,
    mem: Seq<u8>,
    mi: u16,
    x: u8,
    y: u8,
    height: int,
)
    requires
        g1.len() == 2048,
        g2.len() == 2048,
    ensures
        draw_gfx(cleared(g1), mem, mi, x, y, height) == draw_gfx(cleared(g2), mem, mi, x, y, height),
        !draw_collision(cleared(g1), mem, mi, x, y, height),
{
    assert(draw_gfx(cleared(g1), mem, mi, x, y, height) =~= draw_gfx(
        cleared(g2),
        mem,
        mi,
        x,
        y,
        height,
    ));
    if draw_collision(cleared(g1), mem, mi, x, y, height) {
        let (row, col) = choose|row: int, col: int|
            0 <= row < height && 0 <= col < 8 && sprite_bit(mem[mi + row], col) && cleared(
                g1,
            )[cell_index(x, y, row, col)];
        assert(false);
    }
}

/// Drawing the same sprite twice at the same location restores the
/// framebuffer (the XOR blit is its own inverse), and the second draw
/// reports a collision exactly where some sprite bit landed on a cell
/// that was dark before the first draw -- the cell the first draw lit.
pub proof fn lemma_draw_twice(g: Seq<bool>, mem: Seq<u8>, mi: u16, x: u8, y: u8, height: int)
    requires
        g.len() == 2048,
    ensures
        draw_gfx(draw_gfx(g, mem, mi, x, y, height), mem, mi, x, y, height) == g,
        draw_collision(draw_gfx(g, mem, mi, x, y, height), mem, mi, x, y, height) <==> exists|
            row: int,
            col: int,
        |
            0 <= row < height && 0 <= col < 8 && sprite_bit(mem[mi + row], col) && !g[cell_index(
                x,
                y,
                row,
                col,
            )],
{
    let once = draw_gfx(g, mem, mi, x, y, height);
    assert forall|cell: int| 0 <= cell < 2048 implies draw_gfx(once, mem, mi, x, y, height)[cell]
        == g[cell] by {
        assert(once[cell] == (g[cell] != draw_hit(mem, mi, x, y, height, cell)));
    }
    assert(draw_gfx(once, mem, mi, x, y, height) =~= g);
    if draw_collision(once, mem, mi, x, y, height) {
        let (row, col) = choose|row: int, col: int|
            0 <= row < height && 0 <= col < 8 && sprite_bit(mem[mi + row], col) && once[cell_index(
                x,
                y,
                row,
                col,
            )];
        assert(draw_hit(mem, mi, x, y, height, cell_index(x, y, row, col)));
        assert(!g[cell_index(x, y, row, col)]);
    }
    if exists|row: int, col: int|
        0 <= row < height && 0 <= col < 8 && sprite_bit(mem[mi + row], col) && !g[cell_index(
            x,
            y,
            row,
            col,
        )] {
        let (row, col) = choose|row: int, col: int|
            0 <= row < height && 0 <= col < 8 && sprite_bit(mem[mi + row], col) && !g[cell_index(
                x,
                y,
                row,
                col,
            )];
        assert(draw_hit(mem, mi, x, y, height, cell_index(x, y, row, col)));
        assert(once[cell_index(x, y, row, col)]);
        assert(draw_collision(once, mem, mi, x, y, height));
    }
}

/// Timers never go below zero: the per-cycle decrement leaves a timer
/// that already reads zero at zero, and otherwise lowers it by exactly
/// one.
pub proof fn lemma_timer_floor(s: State)
    ensures
        s.delay_timer == 0 ==> tick_timers(s).delay_timer == 0,
        s.sound_timer == 0 ==> tick_timers(s).sound_timer == 0,
        s.delay_timer > 0 ==> tick_timers(s).delay_timer == s.delay_timer - 1,
        s.sound_timer > 0 ==> tick_timers(s).sound_timer == s.sound_timer - 1,
        ticked(s.delay_timer) >= 0 && ticked(s.sound_timer) >= 0,
{
}

} // verus!
