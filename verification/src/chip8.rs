//! The executable CHIP-8 machine.
//!
//! [`Chip8`] owns the architectural state exclusively; every public
//! operation states over the model in [`crate::semantics`] exactly how
//! it changes the state.  The only unverified parts are the trusted
//! random-byte source in [`crate::rng`] and the rendering of the
//! diagnostic trace lines.

use std::collections::VecDeque;
use vstd::prelude::*;

use crate::errors::EmulationError;
use crate::semantics::any_key;
use crate::semantics::cell_index;
use crate::semantics::cleared;
use crate::semantics::collision_prefix;
use crate::semantics::cycle_spec;
use crate::semantics::draw_collision;
use crate::semantics::draw_gfx;
use crate::semantics::err_state;
use crate::semantics::exec_op;
use crate::semantics::fetched;
use crate::semantics::font_seq;
use crate::semantics::hit_prefix;
use crate::semantics::initial_memory;
use crate::semantics::initial_state;
use crate::semantics::lemma_no_prior_hit;
use crate::semantics::lemma_prefix_complete;
use crate::semantics::lemma_prefix_empty;
use crate::semantics::lemma_prefix_row;
use crate::semantics::lemma_prefix_step;
use crate::semantics::loaded_memory;
use crate::semantics::mem_with_bcd;
use crate::semantics::mem_with_registers;
use crate::semantics::op_x;
use crate::semantics::op_y;
use crate::semantics::pc_after;
use crate::semantics::regs_from_memory;
use crate::semantics::sprite_bit;
use crate::semantics::tick_timers;
use crate::semantics::wf_state;
use crate::semantics::State;

verus! {

/// The virtual machine: architectural state plus the random source and
/// the bounded diagnostic trace.  The trace holds at most 51 entries
/// and is purely observational; the engine never reads it.
pub struct Chip8 {
    op_code: u16,
    program_counter: u16,
    memory: Vec<u8>,
    register: Vec<u8>,
    memory_index: u16,
    gfx: Vec<bool>,
    delay_timer: u8,
    sound_timer: u8,
    stack: Vec<u16>,
    rng: rand::rngs::ThreadRng,
    debug_enabled: bool,
    debug_log: VecDeque<String>,
}

/// A bounded first-in-first-out append: when the trace already holds
/// more than 50 entries the oldest is dropped before the new one goes
/// on the back.
pub open spec fn trace_push(log: Seq<String>, entry: String) -> Seq<String> {
    if log.len() > 50 {
        log.subrange(1, log.len() as int).push(entry)
    } else {
        log.push(entry)
    }
}

/// How one operation may change the trace: one bounded append of some
/// entry while diagnostics are on, nothing while they are off.
pub open spec fn trace_stepped(before: Seq<String>, after: Seq<String>, diag: bool) -> bool {
    if diag {
        exists|e: String| after == trace_push(before, e)
    } else {
        after == before
    }
}

impl View for Chip8 {
    type V = State;

    closed spec fn view(&self) -> State {
        State {
            op_code: self.op_code,
            program_counter: self.program_counter,
            memory: self.memory@,
            registers: self.register@,
            memory_index: self.memory_index,
            gfx: self.gfx@,
            delay_timer: self.delay_timer,
            sound_timer: self.sound_timer,
            stack: self.stack@,
        }
    }
}

impl Chip8 {
    /// The machine's invariant: the architectural state is well formed
    /// and the trace is within its bound.
    pub closed spec fn wf(&self) -> bool {
        &&& wf_state(self@)
        &&& self.debug_log@.len() <= 51
    }

    /// The diagnostic trace, oldest entry first.
    pub closed spec fn log_view(&self) -> Seq<String> {
        self.debug_log@
    }

    /// Whether trace collection is enabled.
    pub closed spec fn diagnostics_on(&self) -> bool {
        self.debug_enabled
    }

    /// Appends one entry to the trace when diagnostics are on,
    /// dropping the oldest entry first when the bound is reached.
    fn log(&mut self, entry: String)
        requires
            old(self).wf(),
        ensures
            final(self).wf(),
            final(self)@ == old(self)@,
            final(self).diagnostics_on() == old(self).diagnostics_on(),
            final(self).log_view() == (if old(self).diagnostics_on() {
                trace_push(old(self).log_view(), entry)
            } else {
                old(self).log_view()
            }),
    {
        if self.debug_enabled {
            if self.debug_log.len() > 50 {
                self.debug_log.pop_front();
            }
            self.debug_log.push_back(entry);
        }
    }

    /// Appends a fixed text to the trace, as [`Self::log`] does.
    fn log_str(&mut self, entry: &str)
        requires
            old(self).wf(),
        ensures
            final(self).wf(),
            final(self)@ == old(self)@,
            final(self).diagnostics_on() == old(self).diagnostics_on(),
            trace_stepped(old(self).log_view(), final(self).log_view(), old(self).diagnostics_on()),
    {
        if self.debug_enabled {
            let owned = entry.to_owned();
            if self.debug_log.len() > 50 {
                self.debug_log.pop_front();
            }
            self.debug_log.push_back(owned);
            proof {
                assert(self.log_view() == trace_push(old(self).log_view(), owned));
            }
        }
    }

    /// Turns collection of the diagnostic trace on or off.
    pub fn set_diagnostics(&mut self, on: bool)
        ensures
            final(self)@ == old(self)@,
            final(self).wf() == old(self).wf(),
            final(self).diagnostics_on() == on,
            final(self).log_view() == old(self).log_view(),
    {
        self.debug_enabled = on;
    }

    /// The diagnostic trace lines, oldest first.
    pub fn debug_lines(&self) -> (lines: &VecDeque<String>)
        ensures
            lines@ == self.log_view(),
    {
        &self.debug_log
    }

    /// The 2048 framebuffer cells in row-major order, top row first.
    pub fn framebuffer(&self) -> (cells: &Vec<bool>)
        ensures
            cells@ == self@.gfx,
    {
        &self.gfx
    }

    /// The address of the next instruction to fetch.
    pub fn program_counter(&self) -> (pc: u16)
        ensures
            pc == self@.program_counter,
    {
        self.program_counter
    }

    /// The address register I.
    pub fn memory_index(&self) -> (mi: u16)
        ensures
            mi == self@.memory_index,
    {
        self.memory_index
    }

    /// The delay timer.
    pub fn delay_timer(&self) -> (t: u8)
        ensures
            t == self@.delay_timer,
    {
        self.delay_timer
    }

    /// The sound timer.
    pub fn sound_timer(&self) -> (t: u8)
        ensures
            t == self@.sound_timer,
    {
        self.sound_timer
    }

    /// General register `i`.
    pub fn register_value(&self, i: usize) -> (v: u8)
        requires
            self.wf(),
            i < 16,
        ensures
            v == self@.registers[i as int],
    {
        self.register[i]
    }

    /// The byte at memory address `addr`.
    pub fn memory_at(&self, addr: usize) -> (b: u8)
        requires
            self.wf(),
            addr < 4096,
        ensures
            b == self@.memory[addr as int],
    {
        self.memory[addr]
    }
}

/// Everything outside the architectural state that operations must
/// leave alone: the trace and the diagnostics switch.
pub open spec fn aux_same(pre: Chip8, post: Chip8) -> bool {
    &&& post.log_view() == pre.log_view()
    &&& post.diagnostics_on() == pre.diagnostics_on()
}

impl Chip8 {
    /// The 16-bit word at the program counter, high byte first.
    fn read_op_code(&self) -> (op: u16)
        requires
            self.wf(),
            self@.program_counter + 1 < 4096,
        ensures
            op == fetched(self@),
    {
        let hi = self.memory[self.program_counter as usize];
        let lo = self.memory[self.program_counter as usize + 1];
        (hi as u16) * 256 + (lo as u16)
    }

    /// Register X, selected by bits 8..12 of the held opcode.
    fn read_vx(&self) -> (v: u8)
        requires
            self.wf(),
        ensures
            v == self@.registers[op_x(self@.op_code)],
    {
        self.register[((self.op_code / 256) % 16) as usize]
    }

    /// Writes register X.
    fn write_vx(&mut self, value: u8)
        requires
            old(self).wf(),
        ensures
            final(self).wf(),
            final(self)@ == (State {
                registers: old(self)@.registers.update(op_x(old(self)@.op_code), value),
                ..old(self)@
            }),
            aux_same(*old(self), *final(self)),
    {
        let register_index = ((self.op_code / 256) % 16) as usize;
        self.register.set(register_index, value);
    }

    /// Register Y, selected by bits 4..8 of the held opcode.
    fn read_vy(&self) -> (v: u8)
        requires
            self.wf(),
        ensures
            v == self@.registers[op_y(self@.op_code)],
    {
        self.register[((self.op_code / 16) % 16) as usize]
    }

    /// Writes the flag register (register 15).
    fn write_vf(&mut self, value: u8)
        requires
            old(self).wf(),
        ensures
            final(self).wf(),
            final(self)@ == (State {
                registers: old(self)@.registers.update(15, value),
                ..old(self)@
            }),
            aux_same(*old(self), *final(self)),
    {
        self.register.set(15, value);
    }

    /// Redirects the program counter.
    fn set_program_counter(&mut self, index: u16)
        requires
            old(self).wf(),
        ensures
            final(self).wf(),
            final(self)@ == (State { program_counter: index, ..old(self)@ }),
            aux_same(*old(self), *final(self)),
    {
        self.program_counter = index;
    }

    /// Advances the program counter to the next instruction.
    fn increase_program_counter(&mut self)
        requires
            old(self).wf(),
            old(self)@.program_counter + 2 <= u16::MAX,
        ensures
            final(self).wf(),
            final(self)@ == (State {
                program_counter: pc_after(old(self)@.program_counter, 2),
                ..old(self)@
            }),
            aux_same(*old(self), *final(self)),
    {
        self.program_counter += 2;
    }

    /// Advances the program counter when `condition` holds (the skip
    /// instructions).
    fn increase_program_counter_if(&mut self, condition: bool)
        requires
            old(self).wf(),
            old(self)@.program_counter + 2 <= u16::MAX,
        ensures
            final(self).wf(),
            final(self)@ == (State {
                program_counter: if condition {
                    pc_after(old(self)@.program_counter, 2)
                } else {
                    old(self)@.program_counter
                },
                ..old(self)@
            }),
            aux_same(*old(self), *final(self)),
    {
        if condition {
            self.increase_program_counter()
        }
    }

    /// Pushes the current program counter and jumps to `address`.
    fn call_at(&mut self, address: u16)
        requires
            old(self).wf(),
            old(self)@.program_counter <= 4094,
        ensures
            final(self).wf(),
            final(self)@ == (State {
                stack: old(self)@.stack.push(old(self)@.program_counter),
                program_counter: address,
                ..old(self)@
            }),
            aux_same(*old(self), *final(self)),
    {
        self.stack.push(self.program_counter);
        self.program_counter = address;
    }

    /// XOR-blits the `height`-row sprite stored at the address register
    /// onto the framebuffer at (`x`, `y`), wrapping at the edges, and
    /// records in register 15 whether any lit cell was turned off.
    fn draw(&mut self, x: u8, y: u8, height: u8)
        requires
            old(self).wf(),
            height <= 15,
            old(self)@.memory_index + height <= 4096,
        ensures
            final(self).wf(),
            final(self)@ == (State {
                gfx: draw_gfx(
                    old(self)@.gfx,
                    old(self)@.memory,
                    old(self)@.memory_index,
                    x,
                    y,
                    height as int,
                ),
                registers: old(self)@.registers.update(
                    15,
                    if draw_collision(
                        old(self)@.gfx,
                        old(self)@.memory,
                        old(self)@.memory_index,
                        x,
                        y,
                        height as int,
                    ) {
                        1u8
                    } else {
                        0u8
                    },
                ),
                ..old(self)@
            }),
            aux_same(*old(self), *final(self)),
    {
        let ghost m0 = self@;
        let ghost g0 = self@.gfx;
        let ghost mem = self@.memory;
        let ghost mi = self@.memory_index;
        self.write_vf(0);
        proof {
            lemma_prefix_empty(g0, mem, mi, x, y);
        }
        let mut y_row: u8 = 0;
        while y_row < height
            invariant
                self.wf(),
                aux_same(*old(self), *self),
                height <= 15,
                y_row <= height,
                mi + height <= 4096,
                m0.memory_index == mi,
                m0.memory == mem,
                m0.gfx == g0,
                g0.len() == 2048,
                mem.len() == 4096,
                m0.registers.len() == 16,
                self@ == (State { gfx: self@.gfx, registers: self@.registers, ..m0 }),
                self@.gfx.len() == 2048,
                forall|cell: int|
                    0 <= cell < 2048 ==> self@.gfx[cell] == (g0[cell] != hit_prefix(
                        mem,
                        mi,
                        x,
                        y,
                        y_row as int,
                        0,
                        cell,
                    )),
                self@.registers == m0.registers.update(
                    15,
                    if collision_prefix(g0, mem, mi, x, y, y_row as int, 0) { 1u8 } else { 0u8 },
                ),
            decreases height - y_row,
        {
            let sprite = self.memory[(self.memory_index + y_row as u16) as usize];
            let mut x_col: usize = 0;
            while x_col < 8
                invariant
                    self.wf(),
                    aux_same(*old(self), *self),
                    height <= 15,
                    y_row < height,
                    x_col <= 8,
                    mi + height <= 4096,
                    m0.memory_index == mi,
                    m0.memory == mem,
                    m0.gfx == g0,
                    g0.len() == 2048,
                    mem.len() == 4096,
                    m0.registers.len() == 16,
                    sprite == mem[mi + y_row],
                    self@ == (State { gfx: self@.gfx, registers: self@.registers, ..m0 }),
                    self@.gfx.len() == 2048,
                    forall|cell: int|
                        0 <= cell < 2048 ==> self@.gfx[cell] == (g0[cell] != hit_prefix(
                            mem,
                            mi,
                            x,
                            y,
                            y_row as int,
                            x_col as int,
                            cell,
                        )),
                    self@.registers == m0.registers.update(
                        15,
                        if collision_prefix(g0, mem, mi, x, y, y_row as int, x_col as int) {
                            1u8
                        } else {
                            0u8
                        },
                    ),
                decreases 8 - x_col,
            {
                let ghost r = y_row as int;
                let ghost c = x_col as int;
                proof {
                    lemma_prefix_step(g0, mem, mi, x, y, r, c);
                }
                if sprite & (128u8 >> (x_col as u8)) != 0 {
                    let gfx_loc: usize = (x as usize + x_col + (y as usize + y_row as usize) * 64)
                        % 2048;
                    proof {
                        assert(sprite_bit(mem[mi + r], c));
                        assert(gfx_loc as int == cell_index(x, y, r, c));
                        lemma_no_prior_hit(mem, mi, x, y, r, c);
                        assert(self@.gfx[gfx_loc as int] == g0[gfx_loc as int]);
                    }
                    if self.gfx[gfx_loc] {
                        self.write_vf(1);
                        proof {
                            assert(self@.registers =~= m0.registers.update(15, 1u8));
                        }
                    }
                    let cur = self.gfx[gfx_loc];
                    self.gfx.set(gfx_loc, !cur);
                    proof {
                        assert(self@.registers == m0.registers.update(
                            15,
                            if collision_prefix(g0, mem, mi, x, y, r, c + 1) { 1u8 } else { 0u8 },
                        ));
                        assert forall|cell: int| 0 <= cell < 2048 implies self@.gfx[cell] == (
                        g0[cell] != hit_prefix(mem, mi, x, y, r, c + 1, cell)) by {
                            if cell == gfx_loc as int {
                                assert(hit_prefix(mem, mi, x, y, r, c + 1, cell));
                                assert(!hit_prefix(mem, mi, x, y, r, c, cell));
                            }
                        }
                    }
                } else {
                    proof {
                        assert(!sprite_bit(mem[mi + r], c));
                        assert(forall|cell: int|
                            #[trigger] hit_prefix(mem, mi, x, y, r, c + 1, cell) == hit_prefix(
                                mem,
                                mi,
                                x,
                                y,
                                r,
                                c,
                                cell,
                            ));
                        assert(collision_prefix(g0, mem, mi, x, y, r, c + 1) == collision_prefix(
                            g0,
                            mem,
                            mi,
                            x,
                            y,
                            r,
                            c,
                        ));
                    }
                }
                x_col += 1;
            }
            proof {
                lemma_prefix_row(g0, mem, mi, x, y, y_row as int);
            }
            y_row += 1;
        }
        proof {
            lemma_prefix_complete(g0, mem, mi, x, y, height as int);
            assert(self@.gfx =~= draw_gfx(g0, mem, mi, x, y, height as int));
            assert(self@.registers =~= m0.registers.update(
                15,
                if draw_collision(g0, mem, mi, x, y, height as int) { 1u8 } else { 0u8 },
            ));
            assert(self@ =~= (State {
                gfx: draw_gfx(g0, mem, mi, x, y, height as int),
                registers: m0.registers.update(
                    15,
                    if draw_collision(g0, mem, mi, x, y, height as int) { 1u8 } else { 0u8 },
                ),
                ..m0
            }));
        }
    }

    /// Copies registers `0..=reg_max` into memory at the address
    /// register.
    fn register_dump(&mut self, reg_max: u8)
        requires
            old(self).wf(),
            reg_max < 16,
            old(self)@.memory_index + reg_max < 4096,
        ensures
            final(self).wf(),
            final(self)@ == (State {
                memory: mem_with_registers(
                    old(self)@.memory,
                    old(self)@.registers,
                    old(self)@.memory_index,
                    reg_max as int,
                ),
                ..old(self)@
            }),
            aux_same(*old(self), *final(self)),
    {
        let ghost m0 = self@;
        let mut reg_index: usize = 0;
        while reg_index < reg_max as usize
            invariant
                self.wf(),
                aux_same(*old(self), *self),
                reg_index <= reg_max < 16,
                m0.memory_index + reg_max < 4096,
                self@ == (State { memory: self@.memory, ..m0 }),
                forall|j: int|
                    m0.memory_index <= j < m0.memory_index + reg_index ==> self@.memory[j]
                        == m0.registers[j - m0.memory_index],
                forall|j: int|
                    0 <= j < 4096 && !(m0.memory_index <= j < m0.memory_index + reg_index)
                        ==> self@.memory[j] == m0.memory[j],
            decreases reg_max as int - reg_index,
        {
            let value = self.register[reg_index];
            self.memory.set(self.memory_index as usize + reg_index, value);
            reg_index += 1;
        }
        let last = self.register[reg_max as usize];
        self.memory.set(self.memory_index as usize + reg_max as usize, last);
        proof {
            assert(self@.memory =~= mem_with_registers(
                m0.memory,
                m0.registers,
                m0.memory_index,
                reg_max as int,
            ));
            assert(self@ =~= (State {
                memory: mem_with_registers(
                    m0.memory,
                    m0.registers,
                    m0.memory_index,
                    reg_max as int,
                ),
                ..m0
            }));
        }
    }

    /// Refills registers `0..=reg_max` from memory at the address
    /// register.
    fn register_load(&mut self, reg_max: u8)
        requires
            old(self).wf(),
            reg_max < 16,
            old(self)@.memory_index + reg_max < 4096,
        ensures
            final(self).wf(),
            final(self)@ == (State {
                registers: regs_from_memory(
                    old(self)@.registers,
                    old(self)@.memory,
                    old(self)@.memory_index,
                    reg_max as int,
                ),
                ..old(self)@
            }),
            aux_same(*old(self), *final(self)),
    {
        let ghost m0 = self@;
        let mut reg_index: usize = 0;
        while reg_index < reg_max as usize
            invariant
                self.wf(),
                aux_same(*old(self), *self),
                reg_index <= reg_max < 16,
                m0.memory_index + reg_max < 4096,
                self@ == (State { registers: self@.registers, ..m0 }),
                forall|j: int|
                    0 <= j < reg_index ==> self@.registers[j] == m0.memory[m0.memory_index + j],
                forall|j: int|
                    reg_index <= j < 16 ==> self@.registers[j] == m0.registers[j],
            decreases reg_max as int - reg_index,
        {
            let value = self.memory[self.memory_index as usize + reg_index];
            self.register.set(reg_index, value);
            reg_index += 1;
        }
        let last = self.memory[self.memory_index as usize + reg_max as usize];
        self.register.set(reg_max as usize, last);
        proof {
            assert(self@.registers =~= regs_from_memory(
                m0.registers,
                m0.memory,
                m0.memory_index,
                reg_max as int,
            ));
            assert(self@ =~= (State {
                registers: regs_from_memory(
                    m0.registers,
                    m0.memory,
                    m0.memory_index,
                    reg_max as int,
                ),
                ..m0
            }));
        }
    }

    /// Copies a program image verbatim into memory starting at address
    /// 512.  An image that would run past the top of memory is rejected
    /// whole, leaving the machine unchanged.
    pub fn load(&mut self, bytes: Vec<u8>) -> (r: Result<(), EmulationError>)
        requires
            old(self).wf(),
        ensures
            final(self).wf(),
            final(self).diagnostics_on() == old(self).diagnostics_on(),
            match r {
                Ok(()) => {
                    &&& bytes@.len() <= 3584
                    &&& final(self)@ == (State {
                        memory: loaded_memory(old(self)@.memory, bytes@),
                        ..old(self)@
                    })
                    &&& trace_stepped(
                        old(self).log_view(),
                        final(self).log_view(),
                        old(self).diagnostics_on(),
                    )
                },
                Err(e) => {
                    &&& e == EmulationError::AddressOutOfRange
                    &&& bytes@.len() > 3584
                    &&& final(self)@ == old(self)@
                    &&& final(self).log_view() == old(self).log_view()
                },
            },
    {
        if bytes.len() > 3584 {
            return Err(EmulationError::AddressOutOfRange);
        }
        let ghost m0 = self@;
        let mut i: usize = 0;
        while i < bytes.len()
            invariant
                self.wf(),
                aux_same(*old(self), *self),
                i <= bytes@.len() <= 3584,
                self@ == (State { memory: self@.memory, ..m0 }),
                forall|j: int| 512 <= j < 512 + i ==> self@.memory[j] == bytes@[j - 512],
                forall|j: int|
                    0 <= j < 4096 && !(512 <= j < 512 + i) ==> self@.memory[j] == m0.memory[j],
            decreases bytes@.len() - i,
        {
            let value = bytes[i];
            self.memory.set(512 + i, value);
            i += 1;
        }
        proof {
            assert(self@.memory =~= loaded_memory(m0.memory, bytes@));
            assert(self@ =~= (State { memory: loaded_memory(m0.memory, bytes@), ..m0 }));
        }
        self.log_str("Rom Loaded into memory");
        Ok(())
    }
}

/// Relies on the std format machinery: renders the executed opcode in
/// hexadecimal next to a short description.  The text is unspecified;
/// the trace contract only promises one bounded append.
#[verifier::external_body]
fn cycle_note(op: u16, note: &str) -> String {
    format!("Reading opcode [{:#06X}] {}", op, note)
}

/// An instruction that fails leaves the whole cycle failing the same
/// way for every random draw, with only the opcode register latched.
proof fn lemma_cycle_err(s0: State, s1: State, keypad: Seq<bool>, e: EmulationError)
    requires
        s0.program_counter + 1 < 4096,
        s1 == (State { op_code: fetched(s0), ..s0 }),
        forall|rnd: u8| exec_op(s1, keypad, rnd) == Err::<State, EmulationError>(e),
    ensures
        forall|rnd: u8| cycle_spec(s0, keypad, rnd) == Err::<State, EmulationError>(e),
        s1 == err_state(s0),
{
}

impl Chip8 {
    /// Runs one machine cycle with the given keypad snapshot: fetch the
    /// word at the program counter, execute it, append one trace line
    /// while diagnostics are on, and decrement both timers.  Returns
    /// the executed opcode.  On failure nothing has changed but the
    /// opcode register, the timers stand still, and the same failure
    /// comes from every random draw.
    pub fn cycle(&mut self, keypad: [bool; 16]) -> (r: Result<u16, EmulationError>)
        requires
            old(self).wf(),
        ensures
            final(self).wf(),
            final(self).diagnostics_on() == old(self).diagnostics_on(),
            match r {
                Ok(op) => {
                    &&& op == final(self)@.op_code
                    &&& exists|rnd: u8|
                        cycle_spec(old(self)@, keypad@, rnd) == Ok::<State, EmulationError>(
                            final(self)@,
                        )
                    &&& trace_stepped(
                        old(self).log_view(),
                        final(self).log_view(),
                        old(self).diagnostics_on(),
                    )
                },
                Err(e) => {
                    &&& forall|rnd: u8|
                        cycle_spec(old(self)@, keypad@, rnd) == Err::<State, EmulationError>(e)
                    &&& final(self)@ == err_state(old(self)@)
                    &&& final(self).log_view() == old(self).log_view()
                },
            },
    {
        let ghost s0 = self@;
        // Fetch
        if self.program_counter > 4094 {
            return Err(EmulationError::AddressOutOfRange);
        }
        let op = self.read_op_code();
        self.op_code = op;
        let ghost s1 = self@;
        proof {
            assert(s1 == (State { op_code: fetched(s0), ..s0 }));
        }
        let ghost mut rnd_w: u8 = 0u8;
        let mut note: &str = "";
        // Decode and execute
        let family = op / 4096;
        if family == 0 {
            if op == 0x00E0 {
                self.gfx = vec![false; 2048];
                proof {
                    assert(self@.gfx =~= cleared(s1.gfx));
                }
                self.increase_program_counter();
                note = "Clear screen";
            } else if op == 0x00EE {
                match self.stack.pop() {
                    Some(return_address) => {
                        self.set_program_counter(return_address);
                        self.increase_program_counter();
                        note = "set program counter from stack";
                        proof {
                            assert(self@.stack =~= s1.stack.drop_last());
                        }
                    },
                    None => {
                        proof {
                            lemma_cycle_err(s0, s1, keypad@, EmulationError::StackUnderflow);
                        }
                        return Err(EmulationError::StackUnderflow);
                    },
                }
            } else {
                proof {
                    lemma_cycle_err(s0, s1, keypad@, EmulationError::UnknownOpcode(op));
                }
                return Err(EmulationError::UnknownOpcode(op));
            }
        } else if family == 1 {
            self.set_program_counter(op % 4096);
            note = "set program counter";
        } else if family == 2 {
            self.call_at(op % 4096);
            note = "call instruction";
        } else if family == 3 {
            let vx = self.read_vx();
            self.increase_program_counter_if(vx == (op % 256) as u8);
            self.increase_program_counter();
            note = "increase pc (match vx)";
        } else if family == 4 {
            let vx = self.read_vx();
            self.increase_program_counter_if(vx != (op % 256) as u8);
            self.increase_program_counter();
            note = "increase pc (not match vx)";
        } else if family == 5 {
            let vx = self.read_vx();
            let vy = self.read_vy();
            self.increase_program_counter_if(vx == vy);
            self.increase_program_counter();
            note = "increase pc (vx == vy)";
        } else if family == 6 {
            self.write_vx((op % 256) as u8);
            self.increase_program_counter();
            note = "write vx";
        } else if family == 7 {
            let vx = self.read_vx();
            let sum = vx as u16 + (op % 256);
            self.write_vx((sum % 256) as u8);
            self.increase_program_counter();
            note = "add into write vx (no carry flag)";
        } else if family == 8 {
            let vx = self.read_vx();
            let vy = self.read_vy();
            match op % 16 {
                0x0000 => {
                    self.write_vx(vy);
                    note = "move vy into vx";
                },
                0x0001 => {
                    self.write_vx(vx | vy);
                    note = "vx = vx or vy";
                },
                0x0002 => {
                    self.write_vx(vx & vy);
                    note = "vx = vx and vy";
                },
                0x0003 => {
                    self.write_vx(vx ^ vy);
                    note = "vx = vx xor vy";
                },
                0x0004 => {
                    let sum = vx as u16 + vy as u16;
                    self.write_vx((sum % 256) as u8);
                    self.write_vf(if sum > 255 { 1 } else { 0 });
                    note = "vx = vx + vy (with carry flag)";
                },
                0x0005 => {
                    let diff = (vx as u16 + 256 - vy as u16) % 256;
                    self.write_vx(diff as u8);
                    self.write_vf(if vx < vy { 1 } else { 0 });
                    note = "vx = vx - vy (with carry)";
                },
                0x0006 => {
                    let flag = self.read_vx() & 0x01;
                    self.write_vf(flag);
                    let shifted = self.read_vx() >> 1u8;
                    self.write_vx(shifted);
                    note = "vx = vx >> 1";
                },
                0x0007 => {
                    let diff = (vy as u16 + 256 - vx as u16) % 256;
                    self.write_vx(diff as u8);
                    self.write_vf(if vy < vx { 1 } else { 0 });
                    note = "vx = vy - vx (with carry)";
                },
                0x000E => {
                    let flag = self.read_vx() & 0x80;
                    self.write_vf(flag);
                    let doubled = (self.read_vx() as u16 * 2) % 256;
                    self.write_vx(doubled as u8);
                    note = "vx = vx << 1";
                },
                _ => {
                    proof {
                        lemma_cycle_err(s0, s1, keypad@, EmulationError::UnknownOpcode(op));
                    }
                    return Err(EmulationError::UnknownOpcode(op));
                },
            }
            self.increase_program_counter();
        } else if family == 9 {
            let vx = self.read_vx();
            let vy = self.read_vy();
            self.increase_program_counter_if(vx != vy);
            self.increase_program_counter();
            note = "increase pc vx != vy";
        } else if family == 10 {
            self.memory_index = op % 4096;
            self.increase_program_counter();
            note = "write memory";
        } else if family == 11 {
            let v0 = self.register[0];
            self.set_program_counter((op % 4096) + v0 as u16);
            note = "jump by v0";
        } else if family == 12 {
            let random_number = crate::rng::random_byte(&mut self.rng);
            proof {
                rnd_w = random_number;
            }
            self.write_vx(random_number & (op % 256) as u8);
            self.increase_program_counter();
            note = "randomize vx";
        } else if family == 13 {
            let vx = self.read_vx();
            let vy = self.read_vy();
            let height = (op % 16) as u8;
            if self.memory_index > 4096 - height as u16 {
                proof {
                    lemma_cycle_err(s0, s1, keypad@, EmulationError::AddressOutOfRange);
                }
                return Err(EmulationError::AddressOutOfRange);
            }
            self.draw(vx, vy, height);
            self.increase_program_counter();
            note = "draw";
        } else if family == 14 {
            if op % 256 == 0x9E {
                let key = self.read_vx();
                if key >= 16 {
                    proof {
                        lemma_cycle_err(s0, s1, keypad@, EmulationError::AddressOutOfRange);
                    }
                    return Err(EmulationError::AddressOutOfRange);
                }
                self.increase_program_counter_if(keypad[key as usize]);
                self.increase_program_counter();
                note = "skip if key pressed in vx";
            } else if op % 256 == 0xA1 {
                let key = self.read_vx();
                if key >= 16 {
                    proof {
                        lemma_cycle_err(s0, s1, keypad@, EmulationError::AddressOutOfRange);
                    }
                    return Err(EmulationError::AddressOutOfRange);
                }
                self.increase_program_counter_if(!keypad[key as usize]);
                self.increase_program_counter();
                note = "skip if key not pressed in vx";
            } else {
                proof {
                    lemma_cycle_err(s0, s1, keypad@, EmulationError::UnknownOpcode(op));
                }
                return Err(EmulationError::UnknownOpcode(op));
            }
        } else {
            let kk = op % 256;
            if kk == 0x07 {
                let dt = self.delay_timer;
                self.write_vx(dt);
                self.increase_program_counter();
                note = "vx = delay timer";
            } else if kk == 0x0A {
                let mut pressed = false;
                let mut k: usize = 0;
                while k < 16
                    invariant
                        k <= 16,
                        pressed <==> exists|i: int| 0 <= i < k && keypad@[i],
                    decreases 16 - k,
                {
                    if keypad[k] {
                        pressed = true;
                    }
                    k += 1;
                }
                proof {
                    assert(pressed == any_key(keypad@));
                }
                if pressed {
                    self.increase_program_counter();
                    note = "key pressed read, continuing";
                } else {
                    note = "wait for key press";
                }
            } else if kk == 0x15 {
                let vx = self.read_vx();
                self.delay_timer = vx;
                self.increase_program_counter();
                note = "set delay timer";
            } else if kk == 0x18 {
                let vx = self.read_vx();
                self.sound_timer = vx;
                self.increase_program_counter();
                note = "set sound timer";
            } else if kk == 0x1E {
                let vx = self.read_vx();
                self.memory_index = (self.memory_index + vx as u16) % 4096;
                self.increase_program_counter();
                note = "i = i + vx";
            } else if kk == 0x29 {
                let digit = self.read_vx() % 16;
                if digit > 8 {
                    proof {
                        lemma_cycle_err(s0, s1, keypad@, EmulationError::UnknownOpcode(op));
                    }
                    return Err(EmulationError::UnknownOpcode(op));
                }
                self.memory_index = 5 * digit as u16;
                self.increase_program_counter();
                note = "i = sprite address of digit in vx";
            } else if kk == 0x33 {
                if self.memory_index >= 4094 {
                    proof {
                        lemma_cycle_err(s0, s1, keypad@, EmulationError::AddressOutOfRange);
                    }
                    return Err(EmulationError::AddressOutOfRange);
                }
                let value = self.read_vx();
                let mi = self.memory_index as usize;
                self.memory.set(mi, value / 100);
                self.memory.set(mi + 1, (value % 100) / 10);
                self.memory.set(mi + 2, value % 10);
                self.increase_program_counter();
                note = "vx as decimal number";
                proof {
                    assert(self@.memory =~= mem_with_bcd(s1.memory, s1.memory_index, s1.registers[
                        op_x(op)]));
                }
            } else if kk == 0x55 {
                let register_index = ((op / 256) % 16) as u8;
                if self.memory_index >= 4096 - register_index as u16 {
                    proof {
                        lemma_cycle_err(s0, s1, keypad@, EmulationError::AddressOutOfRange);
                    }
                    return Err(EmulationError::AddressOutOfRange);
                }
                self.register_dump(register_index);
                self.increase_program_counter();
                note = "dump registers into memory";
            } else if kk == 0x65 {
                let register_index = ((op / 256) % 16) as u8;
                if self.memory_index >= 4096 - register_index as u16 {
                    proof {
                        lemma_cycle_err(s0, s1, keypad@, EmulationError::AddressOutOfRange);
                    }
                    return Err(EmulationError::AddressOutOfRange);
                }
                self.register_load(register_index);
                self.increase_program_counter();
                note = "load registers from memory";
            } else {
                proof {
                    lemma_cycle_err(s0, s1, keypad@, EmulationError::UnknownOpcode(op));
                }
                return Err(EmulationError::UnknownOpcode(op));
            }
        }
        proof {
            assert(exec_op(s1, keypad@, rnd_w) == Ok::<State, EmulationError>(self@));
        }
        let ghost executed = self@;
        // Trace
        let entry = cycle_note(op, note);
        self.log(entry);
        // Update timers
        if self.delay_timer > 0 {
            self.delay_timer -= 1;
        }
        if self.sound_timer > 0 {
            self.sound_timer -= 1;
        }
        proof {
            assert(self@ =~= tick_timers(executed));
            assert(cycle_spec(s0, keypad@, rnd_w) == Ok::<State, EmulationError>(self@));
        }
        Ok(op)
    }
}

impl Default for Chip8 {
    /// A fresh machine: font table in low memory, program counter at
    /// 512, every other field zeroed, diagnostics off.
    fn default() -> (vm: Self)
        ensures
            vm.wf(),
            vm@ == initial_state(),
            vm.log_view() == Seq::<String>::empty(),
            !vm.diagnostics_on(),
    {
        let fonts: [u8; 80] = [
            0xF0, 0x90, 0x90, 0x90, 0xF0,  // 0
            0x20, 0x60, 0x20, 0x20, 0x70,  // 1
            0xF0, 0x10, 0xF0, 0x80, 0xF0,  // 2
            0xF0, 0x10, 0xF0, 0x10, 0xF0,  // 3
            0x90, 0x90, 0xF0, 0x10, 0x10,  // 4
            0xF0, 0x80, 0xF0, 0x10, 0xF0,  // 5
            0xF0, 0x80, 0xF0, 0x90, 0xF0,  // 6
            0xF0, 0x10, 0x20, 0x40, 0x40,  // 7
            0xF0, 0x90, 0xF0, 0x90, 0xF0,  // 8
            0xF0, 0x90, 0xF0, 0x10, 0xF0,  // 9
            0xF0, 0x90, 0xF0, 0x90, 0x90,  // A
            0xE0, 0x90, 0xE0, 0x90, 0xE0,  // B
            0xF0, 0x80, 0x80, 0x80, 0xF0,  // C
            0xE0, 0x90, 0x90, 0x90, 0xE0,  // D
            0xF0, 0x80, 0xF0, 0x80, 0xF0,  // E
            0xF0, 0x80, 0xF0, 0x80, 0x80,  // F
        ];
        proof {
            assert(fonts@ =~= font_seq());
        }
        let mut init_memory: Vec<u8> = vec![0u8; 4096];
        let mut i: usize = 0;
        while i < 80
            invariant
                i <= 80,
                fonts@ == font_seq(),
                init_memory@.len() == 4096,
                forall|j: int| 0 <= j < i ==> init_memory@[j] == font_seq()[j],
                forall|j: int| i <= j < 4096 ==> init_memory@[j] == 0u8,
            decreases 80 - i,
        {
            init_memory.set(i, fonts[i]);
            i += 1;
        }
        proof {
            assert(init_memory@ =~= initial_memory());
        }
        let vm = Chip8 {
            op_code: 0,
            memory: init_memory,
            register: vec![0u8; 16],
            memory_index: 0,
            program_counter: 0x200,
            gfx: vec![false; 2048],
            delay_timer: 0,
            sound_timer: 0,
            stack: Vec::new(),
            rng: crate::rng::fresh_rng(),
            debug_enabled: false,
            debug_log: VecDeque::new(),
        };
        proof {
            assert(vm@ =~= initial_state());
        }
        vm
    }
}

} // verus!
