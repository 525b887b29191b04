//! Mathematical model of the CHIP-8 machine.
//!
//! [`State`] mirrors the architectural state as mathematical values, and
//! [`cycle_spec`] gives the meaning of one fetch-decode-execute-timer
//! step.  The executable machine in [`crate::chip8`] is proved to follow
//! this model exactly; the proof functions in [`crate::laws`] derive the
//! machine-wide properties from it.

use vstd::prelude::*;

use crate::errors::EmulationError;

verus! {

/// The architectural state: 4096 bytes of memory, sixteen 8-bit
/// registers, the 12-bit address register, a 64x32 monochrome
/// framebuffer in row-major order, two timers, the call stack, and the
/// most recently fetched instruction word.
#[verifier::ext_equal]
pub struct State {
    pub op_code: u16,
    pub program_counter: u16,
    pub memory: Seq<u8>,
    pub registers: Seq<u8>,
    pub memory_index: u16,
    pub gfx: Seq<bool>,
    pub delay_timer: u8,
    pub sound_timer: u8,
    pub stack: Seq<u16>,
}

/// Every stacked return address is one at which a fetch has succeeded,
/// so it stays at or below 4094 and can be advanced without overflow.
pub open spec fn stack_ok(stack: Seq<u16>) -> bool {
    forall|i: int| 0 <= i < stack.len() ==> stack[i] <= 4094
}

/// Shape invariant of the architectural state.
pub open spec fn wf_state(s: State) -> bool {
    &&& s.memory.len() == 4096
    &&& s.registers.len() == 16
    &&& s.gfx.len() == 2048
    &&& s.memory_index < 4096
    &&& stack_ok(s.stack)
}

/// The font table: sixteen glyphs of five bytes each, held in the low
/// memory region from initialization on.
pub open spec fn font_seq() -> Seq<u8> {
    seq![
        0xF0u8, 0x90u8, 0x90u8, 0x90u8, 0xF0u8,  // 0
        0x20u8, 0x60u8, 0x20u8, 0x20u8, 0x70u8,  // 1
        0xF0u8, 0x10u8, 0xF0u8, 0x80u8, 0xF0u8,  // 2
        0xF0u8, 0x10u8, 0xF0u8, 0x10u8, 0xF0u8,  // 3
        0x90u8, 0x90u8, 0xF0u8, 0x10u8, 0x10u8,  // 4
        0xF0u8, 0x80u8, 0xF0u8, 0x10u8, 0xF0u8,  // 5
        0xF0u8, 0x80u8, 0xF0u8, 0x90u8, 0xF0u8,  // 6
        0xF0u8, 0x10u8, 0x20u8, 0x40u8, 0x40u8,  // 7
        0xF0u8, 0x90u8, 0xF0u8, 0x90u8, 0xF0u8,  // 8
        0xF0u8, 0x90u8, 0xF0u8, 0x10u8, 0xF0u8,  // 9
        0xF0u8, 0x90u8, 0xF0u8, 0x90u8, 0x90u8,  // A
        0xE0u8, 0x90u8, 0xE0u8, 0x90u8, 0xE0u8,  // B
        0xF0u8, 0x80u8, 0x80u8, 0x80u8, 0xF0u8,  // C
        0xE0u8, 0x90u8, 0x90u8, 0x90u8, 0xE0u8,  // D
        0xF0u8, 0x80u8, 0xF0u8, 0x80u8, 0xF0u8,  // E
        0xF0u8, 0x80u8, 0xF0u8, 0x80u8, 0x80u8,  // F
    ]
}

/// Memory at initialization: the font table in bytes 0..80, zero
/// everywhere else.
pub open spec fn initial_memory() -> Seq<u8> {
    Seq::new(4096, |i: int| if 0 <= i < 80 { font_seq()[i] } else { 0u8 })
}

/// The state at machine creation: font loaded, program counter at 512,
/// everything else zeroed.
pub open spec fn initial_state() -> State {
    State {
        op_code: 0,
        program_counter: 512,
        memory: initial_memory(),
        registers: Seq::new(16, |i: int| 0u8),
        memory_index: 0,
        gfx: Seq::new(2048, |i: int| false),
        delay_timer: 0,
        sound_timer: 0,
        stack: Seq::empty(),
    }
}

/// Memory after a program image is copied in verbatim at address 512.
pub open spec fn loaded_memory(mem: Seq<u8>, rom: Seq<u8>) -> Seq<u8> {
    Seq::new(mem.len(), |i: int| if 512 <= i < 512 + rom.len() { rom[i - 512] } else { mem[i] })
}

// ------------------------------------------------------------------
// Operand fields.  All instructions place their operands at fixed
// positions in the 16-bit word.

/// Top four bits: the instruction family.
pub open spec fn op_family(op: u16) -> int {
    op as int / 4096
}

/// Bits 8..12: the register-X selector.
pub open spec fn op_x(op: u16) -> int {
    (op as int / 256) % 16
}

/// Bits 4..8: the register-Y selector.
pub open spec fn op_y(op: u16) -> int {
    (op as int / 16) % 16
}

/// Bits 0..8: the 8-bit immediate.
pub open spec fn op_kk(op: u16) -> u8 {
    (op % 256) as u8
}

/// Bits 0..12: the 12-bit address immediate.
pub open spec fn op_nnn(op: u16) -> u16 {
    op % 4096
}

/// Bits 0..4: the 4-bit nibble (sprite height, ALU sub-code).
pub open spec fn op_n(op: u16) -> int {
    op as int % 16
}

// ------------------------------------------------------------------
// 8-bit arithmetic.

/// Sum modulo 256.
pub open spec fn add_wrapped(a: u8, b: u8) -> u8 {
    ((a + b) % 256) as u8
}

/// Carry flag of the 8-bit addition: 1 exactly when the sum exceeds 255.
pub open spec fn add_carry(a: u8, b: u8) -> u8 {
    if a + b > 255 { 1u8 } else { 0u8 }
}

/// Difference modulo 256.
pub open spec fn sub_wrapped(a: u8, b: u8) -> u8 {
    ((a + 256 - b) % 256) as u8
}

/// Borrow flag of the 8-bit subtraction `a - b`: 1 exactly when it
/// borrows (`a < b`).  This polarity is the machine's convention.
pub open spec fn borrow_flag(a: u8, b: u8) -> u8 {
    if a < b { 1u8 } else { 0u8 }
}

/// Left shift by one, the top bit falling off.
pub open spec fn shl_wrapped(a: u8) -> u8 {
    ((2 * a) % 256) as u8
}

// ------------------------------------------------------------------
// The framebuffer and sprite drawing.

/// A framebuffer of the same size with every cell off.
pub open spec fn cleared(gfx: Seq<bool>) -> Seq<bool> {
    Seq::new(gfx.len(), |cell: int| false)
}

/// Whether sprite row byte `byte` has its `col`-th bit set, counting
/// from the most significant bit.
pub open spec fn sprite_bit(byte: u8, col: int) -> bool {
    byte & (128u8 >> (col as u8)) != 0
}

/// The framebuffer cell that sprite position (`row`, `col`) lands on
/// when the sprite is drawn at (`x`, `y`): coordinates wrap around the
/// 64x32 grid rather than clip.
pub open spec fn cell_index(x: u8, y: u8, row: int, col: int) -> int {
    (x + col + (y + row) * 64) % 2048
}

/// Whether drawing the `height`-row sprite stored at `mi` toggles
/// `cell`.  Each cell is toggled by at most one sprite position (see
/// `lemma_cell_index_injective`).
pub open spec fn draw_hit(
    mem: Seq<u8>,
    mi: u16,
    x: u8,
    y: u8,
    height: int,
    cell: int,
) -> bool {
    exists|row: int, col: int|
        0 <= row < height && 0 <= col < 8 && sprite_bit(mem[mi + row], col) && cell_index(
            x,
            y,
            row,
            col,
        ) == cell
}

/// The framebuffer after XOR-blitting the sprite: every hit cell is
/// toggled, every other cell keeps its value.
pub open spec fn draw_gfx(
    gfx: Seq<bool>,
    mem: Seq<u8>,
    mi: u16,
    x: u8,
    y: u8,
    height: int,
) -> Seq<bool> {
    Seq::new(gfx.len(), |cell: int| gfx[cell] != draw_hit(mem, mi, x, y, height, cell))
}

/// Whether the draw turns some already-lit cell off, which the machine
/// records in register 15.
pub open spec fn draw_collision(
    gfx: Seq<bool>,
    mem: Seq<u8>,
    mi: u16,
    x: u8,
    y: u8,
    height: int,
) -> bool {
    exists|row: int, col: int|
        0 <= row < height && 0 <= col < 8 && sprite_bit(mem[mi + row], col) && gfx[cell_index(
            x,
            y,
            row,
            col,
        )]
}

// ------------------------------------------------------------------
// Sprite positions in drawing order.  The machine draws row by row,
// columns left to right; these prefix forms of `draw_hit` and
// `draw_collision` describe the framebuffer part-way through a draw.

/// Lexicographic order on sprite positions: rows outer, columns inner.
pub open spec fn pos_before(row: int, col: int, r: int, c: int) -> bool {
    row < r || (row == r && col < c)
}

/// Whether a sprite position strictly before (`r`, `c`) in drawing
/// order toggles `cell`.
pub open spec fn hit_prefix(
    mem: Seq<u8>,
    mi: u16,
    x: u8,
    y: u8,
    r: int,
    c: int,
    cell: int,
) -> bool {
    exists|row: int, col: int|
        0 <= row && 0 <= col < 8 && pos_before(row, col, r, c) && sprite_bit(mem[mi + row], col)
            && cell_index(x, y, row, col) == cell
}

/// Whether a sprite position strictly before (`r`, `c`) lands on a lit
/// cell of `gfx`.
pub open spec fn collision_prefix(
    gfx: Seq<bool>,
    mem: Seq<u8>,
    mi: u16,
    x: u8,
    y: u8,
    r: int,
    c: int,
) -> bool {
    exists|row: int, col: int|
        0 <= row && 0 <= col < 8 && pos_before(row, col, r, c) && sprite_bit(mem[mi + row], col)
            && gfx[cell_index(x, y, row, col)]
}

/// Distinct sprite positions of one draw land on distinct framebuffer
/// cells: the row difference contributes at most 15 * 64 and the column
/// difference at most 7, so the positions stay less than 2048 apart and
/// the wraparound cannot identify them.
pub proof fn lemma_cell_index_injective(x: u8, y: u8, r1: int, c1: int, r2: int, c2: int)
    requires
        0 <= r1 < 16,
        0 <= c1 < 8,
        0 <= r2 < 16,
        0 <= c2 < 8,
        !(r1 == r2 && c1 == c2),
    ensures
        cell_index(x, y, r1, c1) != cell_index(x, y, r2, c2),
{
    let a = x + c1 + (y + r1) * 64;
    let b = x + c2 + (y + r2) * 64;
    assert(a - b == (c1 - c2) + 64 * (r1 - r2));
    assert(a != b);
    assert(-2048 < a - b < 2048);
    if a % 2048 == b % 2048 {
        vstd::arithmetic::div_mod::lemma_fundamental_div_mod(a, 2048);
        vstd::arithmetic::div_mod::lemma_fundamental_div_mod(b, 2048);
        let q = a / 2048 - b / 2048;
        assert(a - b == 2048 * q);
        assert(q != 0);
        assert(a - b >= 2048 || a - b <= -2048) by (nonlinear_arith)
            requires
                a - b == 2048 * q,
                q != 0,
        {
        }
        assert(false);
    }
}

/// Before any sprite position is processed, nothing is toggled and no
/// collision has been seen.
pub proof fn lemma_prefix_empty(gfx: Seq<bool>, mem: Seq<u8>, mi: u16, x: u8, y: u8)
    ensures
        forall|cell: int| !hit_prefix(mem, mi, x, y, 0, 0, cell),
        !collision_prefix(gfx, mem, mi, x, y, 0, 0),
{
    assert forall|cell: int| !hit_prefix(mem, mi, x, y, 0, 0, cell) by {
        if hit_prefix(mem, mi, x, y, 0, 0, cell) {
            let (row, col) = choose|row: int, col: int|
                0 <= row && 0 <= col < 8 && pos_before(row, col, 0, 0) && sprite_bit(
                    mem[mi + row],
                    col,
                ) && cell_index(x, y, row, col) == cell;
            assert(false);
        }
    }
    if collision_prefix(gfx, mem, mi, x, y, 0, 0) {
        let (row, col) = choose|row: int, col: int|
            0 <= row && 0 <= col < 8 && pos_before(row, col, 0, 0) && sprite_bit(
                mem[mi + row],
                col,
            ) && gfx[cell_index(x, y, row, col)];
        assert(false);
    }
}

/// Processing position (`r`, `c`) extends the prefix by exactly that
/// position: a cell is toggled by the longer prefix exactly when the
/// shorter one toggled it or the new position has its bit set and lands
/// there, and likewise for collisions.
pub proof fn lemma_prefix_step(
    gfx: Seq<bool>,
    mem: Seq<u8>,
    mi: u16,
    x: u8,
    y: u8,
    r: int,
    c: int,
)
    requires
        0 <= r,
        0 <= c < 8,
    ensures
        forall|cell: int|
            #[trigger] hit_prefix(mem, mi, x, y, r, c + 1, cell) == (hit_prefix(
                mem,
                mi,
                x,
                y,
                r,
                c,
                cell,
            ) || (sprite_bit(mem[mi + r], c) && cell_index(x, y, r, c) == cell)),
        collision_prefix(gfx, mem, mi, x, y, r, c + 1) == (collision_prefix(
            gfx,
            mem,
            mi,
            x,
            y,
            r,
            c,
        ) || (sprite_bit(mem[mi + r], c) && gfx[cell_index(x, y, r, c)])),
{
    assert forall|cell: int|
        #[trigger] hit_prefix(mem, mi, x, y, r, c + 1, cell) == (hit_prefix(
            mem,
            mi,
            x,
            y,
            r,
            c,
            cell,
        ) || (sprite_bit(mem[mi + r], c) && cell_index(x, y, r, c) == cell)) by {
        if hit_prefix(mem, mi, x, y, r, c + 1, cell) {
            let (row, col) = choose|row: int, col: int|
                0 <= row && 0 <= col < 8 && pos_before(row, col, r, c + 1) && sprite_bit(
                    mem[mi + row],
                    col,
                ) && cell_index(x, y, row, col) == cell;
            if row == r && col == c {
                assert(sprite_bit(mem[mi + r], c) && cell_index(x, y, r, c) == cell);
            } else {
                assert(pos_before(row, col, r, c));
                assert(hit_prefix(mem, mi, x, y, r, c, cell));
            }
        }
        if hit_prefix(mem, mi, x, y, r, c, cell) {
            let (row, col) = choose|row: int, col: int|
                0 <= row && 0 <= col < 8 && pos_before(row, col, r, c) && sprite_bit(
                    mem[mi + row],
                    col,
                ) && cell_index(x, y, row, col) == cell;
            assert(pos_before(row, col, r, c + 1));
            assert(hit_prefix(mem, mi, x, y, r, c + 1, cell));
        }
        if sprite_bit(mem[mi + r], c) && cell_index(x, y, r, c) == cell {
            assert(pos_before(r, c, r, c + 1));
            assert(hit_prefix(mem, mi, x, y, r, c + 1, cell));
        }
    }
    if collision_prefix(gfx, mem, mi, x, y, r, c + 1) {
        let (row, col) = choose|row: int, col: int|
            0 <= row && 0 <= col < 8 && pos_before(row, col, r, c + 1) && sprite_bit(
                mem[mi + row],
                col,
            ) && gfx[cell_index(x, y, row, col)];
        if !(row == r && col == c) {
            assert(pos_before(row, col, r, c));
            assert(collision_prefix(gfx, mem, mi, x, y, r, c));
        }
    }
    if collision_prefix(gfx, mem, mi, x, y, r, c) {
        let (row, col) = choose|row: int, col: int|
            0 <= row && 0 <= col < 8 && pos_before(row, col, r, c) && sprite_bit(
                mem[mi + row],
                col,
            ) && gfx[cell_index(x, y, row, col)];
        assert(pos_before(row, col, r, c + 1));
        assert(collision_prefix(gfx, mem, mi, x, y, r, c + 1));
    }
    if sprite_bit(mem[mi + r], c) && gfx[cell_index(x, y, r, c)] {
        assert(pos_before(r, c, r, c + 1));
        assert(collision_prefix(gfx, mem, mi, x, y, r, c + 1));
    }
}

/// Finishing a row and starting the next one bound the same prefix of
/// positions.
pub proof fn lemma_prefix_row(gfx: Seq<bool>, mem: Seq<u8>, mi: u16, x: u8, y: u8, r: int)
    requires
        0 <= r,
    ensures
        forall|cell: int|
            #[trigger] hit_prefix(mem, mi, x, y, r + 1, 0, cell) == hit_prefix(
                mem,
                mi,
                x,
                y,
                r,
                8,
                cell,
            ),
        collision_prefix(gfx, mem, mi, x, y, r + 1, 0) == collision_prefix(
            gfx,
            mem,
            mi,
            x,
            y,
            r,
            8,
        ),
{
    assert forall|cell: int|
        #[trigger] hit_prefix(mem, mi, x, y, r + 1, 0, cell) == hit_prefix(
            mem,
            mi,
            x,
            y,
            r,
            8,
            cell,
        ) by {
        if hit_prefix(mem, mi, x, y, r + 1, 0, cell) {
            let (row, col) = choose|row: int, col: int|
                0 <= row && 0 <= col < 8 && pos_before(row, col, r + 1, 0) && sprite_bit(
                    mem[mi + row],
                    col,
                ) && cell_index(x, y, row, col) == cell;
            assert(pos_before(row, col, r, 8));
            assert(hit_prefix(mem, mi, x, y, r, 8, cell));
        }
        if hit_prefix(mem, mi, x, y, r, 8, cell) {
            let (row, col) = choose|row: int, col: int|
                0 <= row && 0 <= col < 8 && pos_before(row, col, r, 8) && sprite_bit(
                    mem[mi + row],
                    col,
                ) && cell_index(x, y, row, col) == cell;
            assert(pos_before(row, col, r + 1, 0));
            assert(hit_prefix(mem, mi, x, y, r + 1, 0, cell));
        }
    }
    if collision_prefix(gfx, mem, mi, x, y, r + 1, 0) {
        let (row, col) = choose|row: int, col: int|
            0 <= row && 0 <= col < 8 && pos_before(row, col, r + 1, 0) && sprite_bit(
                mem[mi + row],
                col,
            ) && gfx[cell_index(x, y, row, col)];
        assert(pos_before(row, col, r, 8));
        assert(collision_prefix(gfx, mem, mi, x, y, r, 8));
    }
    if collision_prefix(gfx, mem, mi, x, y, r, 8) {
        let (row, col) = choose|row: int, col: int|
            0 <= row && 0 <= col < 8 && pos_before(row, col, r, 8) && sprite_bit(
                mem[mi + row],
                col,
            ) && gfx[cell_index(x, y, row, col)];
        assert(pos_before(row, col, r + 1, 0));
        assert(collision_prefix(gfx, mem, mi, x, y, r + 1, 0));
    }
}

/// The prefix of all `height` rows is the whole draw.
pub proof fn lemma_prefix_complete(
    gfx: Seq<bool>,
    mem: Seq<u8>,
    mi: u16,
    x: u8,
    y: u8,
    height: int,
)
    requires
        0 <= height,
    ensures
        forall|cell: int|
            #[trigger] hit_prefix(mem, mi, x, y, height, 0, cell) == draw_hit(
                mem,
                mi,
                x,
                y,
                height,
                cell,
            ),
        collision_prefix(gfx, mem, mi, x, y, height, 0) == draw_collision(
            gfx,
            mem,
            mi,
            x,
            y,
            height,
        ),
{
    assert forall|cell: int|
        #[trigger] hit_prefix(mem, mi, x, y, height, 0, cell) == draw_hit(
            mem,
            mi,
            x,
            y,
            height,
            cell,
        ) by {
        if hit_prefix(mem, mi, x, y, height, 0, cell) {
            let (row, col) = choose|row: int, col: int|
                0 <= row && 0 <= col < 8 && pos_before(row, col, height, 0) && sprite_bit(
                    mem[mi + row],
                    col,
                ) && cell_index(x, y, row, col) == cell;
            assert(row < height);
            assert(draw_hit(mem, mi, x, y, height, cell));
        }
        if draw_hit(mem, mi, x, y, height, cell) {
            let (row, col) = choose|row: int, col: int|
                0 <= row < height && 0 <= col < 8 && sprite_bit(mem[mi + row], col)
                    && cell_index(x, y, row, col) == cell;
            assert(pos_before(row, col, height, 0));
            assert(hit_prefix(mem, mi, x, y, height, 0, cell));
        }
    }
    if collision_prefix(gfx, mem, mi, x, y, height, 0) {
        let (row, col) = choose|row: int, col: int|
            0 <= row && 0 <= col < 8 && pos_before(row, col, height, 0) && sprite_bit(
                mem[mi + row],
                col,
            ) && gfx[cell_index(x, y, row, col)];
        assert(row < height);
        assert(draw_collision(gfx, mem, mi, x, y, height));
    }
    if draw_collision(gfx, mem, mi, x, y, height) {
        let (row, col) = choose|row: int, col: int|
            0 <= row < height && 0 <= col < 8 && sprite_bit(mem[mi + row], col)
                && gfx[cell_index(x, y, row, col)];
        assert(pos_before(row, col, height, 0));
        assert(collision_prefix(gfx, mem, mi, x, y, height, 0));
    }
}

/// No sprite position strictly before (`r`, `c`) lands on the cell that
/// (`r`, `c`) itself lands on: the injectivity of `cell_index` over one
/// draw.
pub proof fn lemma_no_prior_hit(mem: Seq<u8>, mi: u16, x: u8, y: u8, r: int, c: int)
    requires
        0 <= r < 16,
        0 <= c < 8,
    ensures
        !hit_prefix(mem, mi, x, y, r, c, cell_index(x, y, r, c)),
{
    if hit_prefix(mem, mi, x, y, r, c, cell_index(x, y, r, c)) {
        let (row, col) = choose|row: int, col: int|
            0 <= row && 0 <= col < 8 && pos_before(row, col, r, c) && sprite_bit(
                mem[mi + row],
                col,
            ) && cell_index(x, y, row, col) == cell_index(x, y, r, c);
        lemma_cell_index_injective(x, y, row, col, r, c);
        assert(false);
    }
}

// ------------------------------------------------------------------
// Block moves between registers and memory.

/// Memory after the registers `0..=xmax` are copied to `mi..`.
pub open spec fn mem_with_registers(
    mem: Seq<u8>,
    regs: Seq<u8>,
    mi: u16,
    xmax: int,
) -> Seq<u8> {
    Seq::new(mem.len(), |i: int| if mi <= i <= mi + xmax { regs[i - mi] } else { mem[i] })
}

/// Registers after `0..=xmax` are refilled from memory at `mi..`.
pub open spec fn regs_from_memory(
    regs: Seq<u8>,
    mem: Seq<u8>,
    mi: u16,
    xmax: int,
) -> Seq<u8> {
    Seq::new(regs.len(), |i: int| if i <= xmax { mem[mi + i] } else { regs[i] })
}

/// Memory after the three decimal digits of `value` are written at
/// `mi`, `mi + 1`, `mi + 2`.
pub open spec fn mem_with_bcd(mem: Seq<u8>, mi: u16, value: u8) -> Seq<u8> {
    mem.update(mi as int, (value / 100) as u8).update(
        mi as int + 1,
        ((value % 100) / 10) as u8,
    ).update(mi as int + 2, (value % 10) as u8)
}

// ------------------------------------------------------------------
// The cycle.

/// The 16-bit word at the program counter: high byte first.
pub open spec fn fetched(s: State) -> u16 {
    (s.memory[s.program_counter as int] * 256 + s.memory[s.program_counter as int + 1]) as u16
}

/// The program counter advanced by `step` (2 for the normal advance,
/// 4 for a taken skip, 0 for a wait that stays put).
pub open spec fn pc_after(pc: u16, step: int) -> u16 {
    (pc + step) as u16
}

/// Whether some key of the 16-key snapshot is pressed.
pub open spec fn any_key(keypad: Seq<bool>) -> bool {
    exists|i: int| 0 <= i < 16 && keypad[i]
}

/// One timer decrement: down by one while positive, never below zero.
pub open spec fn ticked(t: u8) -> u8 {
    if t > 0 { (t - 1) as u8 } else { 0u8 }
}

/// Both timers decremented, the rest of the state kept.
pub open spec fn tick_timers(s: State) -> State {
    State { delay_timer: ticked(s.delay_timer), sound_timer: ticked(s.sound_timer), ..s }
}

/// The register file after an arithmetic-family instruction, or `None`
/// for an unknown sub-code.  Updates are applied in the machine's
/// order, so when `x` selects register 15 the flag write and the result
/// write overlay each other exactly as the machine does.
pub open spec fn alu(regs: Seq<u8>, x: int, y: int, sub: int) -> Option<Seq<u8>> {
    let vx = regs[x];
    let vy = regs[y];
    if sub == 0 {
        Some(regs.update(x, vy))
    } else if sub == 1 {
        Some(regs.update(x, vx | vy))
    } else if sub == 2 {
        Some(regs.update(x, vx & vy))
    } else if sub == 3 {
        Some(regs.update(x, vx ^ vy))
    } else if sub == 4 {
        Some(regs.update(x, add_wrapped(vx, vy)).update(15, add_carry(vx, vy)))
    } else if sub == 5 {
        Some(regs.update(x, sub_wrapped(vx, vy)).update(15, borrow_flag(vx, vy)))
    } else if sub == 6 {
        // The flag takes the low bit first; the shift then reads the
        // register file again, so an X of 15 shifts the flag itself.
        let flagged = regs.update(15, vx & 1);
        Some(flagged.update(x, flagged[x] >> 1u8))
    } else if sub == 7 {
        Some(regs.update(x, sub_wrapped(vy, vx)).update(15, borrow_flag(vy, vx)))
    } else if sub == 14 {
        // The flag keeps the raw masked top bit (not normalized to 0/1),
        // and the shift reads the register file after the flag write.
        let flagged = regs.update(15, vx & 128);
        Some(flagged.update(x, shl_wrapped(flagged[x])))
    } else {
        None
    }
}

/// Executes the already-fetched instruction in `s.op_code`: the state
/// transition of every family, or the failure it produces.  `rnd` is
/// the byte the randomize instruction draws; no other family reads it.
pub open spec fn exec_op(s: State, keypad: Seq<bool>, rnd: u8) -> Result<
    State,
    EmulationError,
> {
    let op = s.op_code;
    let x = op_x(op);
    let y = op_y(op);
    let kk = op_kk(op);
    let nnn = op_nnn(op);
    let n = op_n(op);
    let vx = s.registers[x];
    let vy = s.registers[y];
    let pc = s.program_counter;
    if op == 0x00E0 {
        Ok(State { gfx: cleared(s.gfx), program_counter: pc_after(pc, 2), ..s })
    } else if op == 0x00EE {
        if s.stack.len() == 0 {
            Err(EmulationError::StackUnderflow)
        } else {
            Ok(
                State {
                    program_counter: pc_after(s.stack.last(), 2),
                    stack: s.stack.drop_last(),
                    ..s
                },
            )
        }
    } else if op_family(op) == 0 {
        Err(EmulationError::UnknownOpcode(op))
    } else if op_family(op) == 1 {
        Ok(State { program_counter: nnn, ..s })
    } else if op_family(op) == 2 {
        Ok(State { stack: s.stack.push(pc), program_counter: nnn, ..s })
    } else if op_family(op) == 3 {
        Ok(State { program_counter: pc_after(pc, if vx == kk { 4 } else { 2 }), ..s })
    } else if op_family(op) == 4 {
        Ok(State { program_counter: pc_after(pc, if vx != kk { 4 } else { 2 }), ..s })
    } else if op_family(op) == 5 {
        Ok(State { program_counter: pc_after(pc, if vx == vy { 4 } else { 2 }), ..s })
    } else if op_family(op) == 6 {
        Ok(State { registers: s.registers.update(x, kk), program_counter: pc_after(pc, 2), ..s })
    } else if op_family(op) == 7 {
        Ok(
            State {
                registers: s.registers.update(x, add_wrapped(vx, kk)),
                program_counter: pc_after(pc, 2),
                ..s
            },
        )
    } else if op_family(op) == 8 {
        match alu(s.registers, x, y, n) {
            Some(regs) => Ok(
                State { registers: regs, program_counter: pc_after(pc, 2), ..s },
            ),
            None => Err(EmulationError::UnknownOpcode(op)),
        }
    } else if op_family(op) == 9 {
        Ok(State { program_counter: pc_after(pc, if vx != vy { 4 } else { 2 }), ..s })
    } else if op_family(op) == 10 {
        Ok(State { memory_index: nnn, program_counter: pc_after(pc, 2), ..s })
    } else if op_family(op) == 11 {
        Ok(State { program_counter: (nnn + s.registers[0]) as u16, ..s })
    } else if op_family(op) == 12 {
        Ok(
            State {
                registers: s.registers.update(x, rnd & kk),
                program_counter: pc_after(pc, 2),
                ..s
            },
        )
    } else if op_family(op) == 13 {
        if s.memory_index + n > 4096 {
            Err(EmulationError::AddressOutOfRange)
        } else {
            Ok(
                State {
                    gfx: draw_gfx(s.gfx, s.memory, s.memory_index, vx, vy, n),
                    registers: s.registers.update(
                        15,
                        if draw_collision(s.gfx, s.memory, s.memory_index, vx, vy, n) {
                            1u8
                        } else {
                            0u8
                        },
                    ),
                    program_counter: pc_after(pc, 2),
                    ..s
                },
            )
        }
    } else if op_family(op) == 14 {
        if kk == 0x9E {
            if vx >= 16 {
                Err(EmulationError::AddressOutOfRange)
            } else {
                Ok(
                    State {
                        program_counter: pc_after(pc, if keypad[vx as int] { 4 } else { 2 }),
                        ..s
                    },
                )
            }
        } else if kk == 0xA1 {
            if vx >= 16 {
                Err(EmulationError::AddressOutOfRange)
            } else {
                Ok(
                    State {
                        program_counter: pc_after(pc, if !keypad[vx as int] { 4 } else { 2 }),
                        ..s
                    },
                )
            }
        } else {
            Err(EmulationError::UnknownOpcode(op))
        }
    } else if kk == 0x07 {
        Ok(
            State {
                registers: s.registers.update(x, s.delay_timer),
                program_counter: pc_after(pc, 2),
                ..s
            },
        )
    } else if kk == 0x0A {
        Ok(State { program_counter: pc_after(pc, if any_key(keypad) { 2 } else { 0 }), ..s })
    } else if kk == 0x15 {
        Ok(State { delay_timer: vx, program_counter: pc_after(pc, 2), ..s })
    } else if kk == 0x18 {
        Ok(State { sound_timer: vx, program_counter: pc_after(pc, 2), ..s })
    } else if kk == 0x1E {
        Ok(
            State {
                memory_index: (((s.memory_index + vx) as u16) % 4096) as u16,
                program_counter: pc_after(pc, 2),
                ..s
            },
        )
    } else if kk == 0x29 {
        // Font glyphs are five bytes each, starting at address 0; only
        // the low nibble selects, and only digits 0..=8 are mapped.
        if vx % 16 <= 8 {
            Ok(
                State {
                    memory_index: (5 * (vx % 16)) as u16,
                    program_counter: pc_after(pc, 2),
                    ..s
                },
            )
        } else {
            Err(EmulationError::UnknownOpcode(op))
        }
    } else if kk == 0x33 {
        if s.memory_index + 2 >= 4096 {
            Err(EmulationError::AddressOutOfRange)
        } else {
            Ok(
                State {
                    memory: mem_with_bcd(s.memory, s.memory_index, vx),
                    program_counter: pc_after(pc, 2),
                    ..s
                },
            )
        }
    } else if kk == 0x55 {
        if s.memory_index + x >= 4096 {
            Err(EmulationError::AddressOutOfRange)
        } else {
            Ok(
                State {
                    memory: mem_with_registers(s.memory, s.registers, s.memory_index, x),
                    program_counter: pc_after(pc, 2),
                    ..s
                },
            )
        }
    } else if kk == 0x65 {
        if s.memory_index + x >= 4096 {
            Err(EmulationError::AddressOutOfRange)
        } else {
            Ok(
                State {
                    registers: regs_from_memory(s.registers, s.memory, s.memory_index, x),
                    program_counter: pc_after(pc, 2),
                    ..s
                },
            )
        }
    } else {
        Err(EmulationError::UnknownOpcode(op))
    }
}

/// One full cycle: fetch the word at the program counter (failing when
/// the fetch would leave memory), execute it, then decrement both
/// timers.  `rnd` is the byte a randomize instruction would draw.
pub open spec fn cycle_spec(s: State, keypad: Seq<bool>, rnd: u8) -> Result<
    State,
    EmulationError,
> {
    if s.program_counter + 1 >= 4096 {
        Err(EmulationError::AddressOutOfRange)
    } else {
        match exec_op(State { op_code: fetched(s), ..s }, keypad, rnd) {
            Ok(t) => Ok(tick_timers(t)),
            Err(e) => Err(e),
        }
    }
}

/// The state a failing cycle leaves behind: the fetched word is latched
/// in the opcode register when the fetch itself succeeded, and nothing
/// else changes.
pub open spec fn err_state(s: State) -> State {
    if s.program_counter + 1 >= 4096 {
        s
    } else {
        State { op_code: fetched(s), ..s }
    }
}

} // verus!
