use vstd::prelude::*;

use crate::keyboard::{after_take, Keypad};
use crate::memory::{with_program, Memory, ProgramTooLargeError, MAX_PROGRAM_LEN, MEMORY_SIZE, PROGRAM_START};
use crate::screen::{
    blank, collides, count_on, drawn, lemma_count_on_all_off, pixel_index, sprite_bit, touched, Screen,
    PIXEL_COUNT,
};

verus! {

/// Number of general registers.
pub const REGISTER_COUNT: usize = 16;

/// Register that several opcodes use for their carry, borrow or collision flag.
pub const FLAG: usize = 15;

/// Most return addresses the call stack holds.
pub const STACK_DEPTH: usize = 16;

/// Bytes in the built-in font table.
pub const FONT_LEN: usize = 80;

/// Bytes in one glyph of the font table.
pub const GLYPH_LEN: u16 = 5;

/// Glyphs for the hexadecimal digits 0 to F, five rows each, stored at address 0.
pub const FONT_SET: [u8; FONT_LEN] = [
    0xF0, 0x90, 0x90, 0x90, 0xF0,  // 0
    0x20, 0x60, 0x20, 0x20, 0x70,  // 1
    0xF0, 0x10, 0xF0, 0x80, 0xF0,  // 2
    0xF0, 0x10, 0xF0, 0x10, 0xF0,  // 3
    0x90, 0x90, 0xF0, 0x10, 0x10,  // 4
    0xF0, 0x80, 0xF0, 0x10, 0xF0,  // 5
    0xF0, 0x80, 0xF0, 0x90, 0xF0,  // 6
    0xF0, 0x10, 0x20, 0x40, 0x40,  // 7
    0xF0, 0x90, 0xF0, 0x90, 0xF0,  // 8
    0xF0, 0x90, 0xF0, 0x10, 0xF0,  // 9
    0xF0, 0x90, 0xF0, 0x90, 0x90,  // A
    0xE0, 0x90, 0xE0, 0x90, 0xE0,  // B
    0xF0, 0x80, 0x80, 0x80, 0xF0,  // C
    0xE0, 0x90, 0x90, 0x90, 0xE0,  // D
    0xF0, 0x80, 0xF0, 0x80, 0xF0,  // E
    0xF0, 0x80, 0xF0, 0x80, 0x80,  // F
];

/// Steps after which `run` gives up on a program that never halts.
pub const STEP_LIMIT: u64 = 0xFFFF_FFFF_FFFF_FFFF;

/// A fatal condition met while executing: the machine stops and its state is
/// left as it was before the failing instruction.
#[derive(Debug, Clone, Copy, PartialEq, Eq, Structural)]
pub enum Fault {
    /// The instruction matches no entry of the instruction set.
    UnknownOpcode(u16),
    /// A call with all stack frames in use.
    StackOverflow,
    /// A return with no stack frame in use.
    StackUnderflow,
    /// A fetch, load or store beyond the end of memory.
    AddressOutOfRange,
}

/// Relies on rand::random, here for `u8`: a value drawn from the thread-local
/// generator. Nothing is assumed of it.
pub assume_specification<T>[ rand::random::<T> ]() -> (r: T)
    where
        rand::distributions::Standard: rand::distributions::Distribution<T>,
;

/// The whole machine, as plain values.
#[verifier::ext_equal]
pub struct MachineState {
    pub memory: Seq<u8>,
    pub registers: Seq<u8>,
    pub i: u16,
    pub pc: u16,
    pub stack: Seq<u16>,
    pub delay_timer: u8,
    pub sound_timer: u8,
    pub pixels: Seq<bool>,
    pub key: Option<u8>,
}

/// Top nibble of an instruction.
pub open spec fn op_group(op: u16) -> int {
    op as int / 0x1000
}

/// Second nibble: the first register operand.
pub open spec fn op_x(op: u16) -> int {
    (op as int / 0x100) % 0x10
}

/// Third nibble: the second register operand.
pub open spec fn op_y(op: u16) -> int {
    (op as int / 0x10) % 0x10
}

/// Bottom nibble.
pub open spec fn op_n(op: u16) -> int {
    op as int % 0x10
}

/// Bottom twelve bits: an address.
pub open spec fn op_nnn(op: u16) -> u16 {
    (op % 0x1000) as u16
}

/// Bottom byte: an immediate value.
pub open spec fn op_nn(op: u16) -> u8 {
    (op % 0x100) as u8
}

/// `v` reduced to sixteen bits.
pub open spec fn wrap16(v: int) -> u16 {
    (v % 0x10000) as u16
}

/// The machine as `new` builds it.
pub open spec fn initial_state() -> MachineState {
    MachineState {
        memory: Seq::new(MEMORY_SIZE as nat, |a: int| if a < FONT_LEN { FONT_SET@[a] } else { 0u8 }),
        registers: Seq::new(REGISTER_COUNT as nat, |r: int| 0u8),
        i: 0,
        pc: PROGRAM_START as u16,
        stack: Seq::empty(),
        delay_timer: 0,
        sound_timer: 0,
        pixels: blank(),
        key: None,
    }
}

/// `s` with its registers replaced.
pub open spec fn set_registers(s: MachineState, registers: Seq<u8>) -> MachineState {
    MachineState { registers, ..s }
}

/// `s` with register `r` set to `v`.
pub open spec fn set_register(s: MachineState, r: int, v: u8) -> MachineState {
    set_registers(s, s.registers.update(r, v))
}

/// Moves the program counter past the next instruction when `cond` holds.
pub open spec fn skip_if(s: MachineState, cond: bool) -> MachineState {
    if cond {
        MachineState { pc: wrap16(s.pc + 2), ..s }
    } else {
        s
    }
}

/// Moves to the next instruction and ticks both timers down, stopping at zero.
pub open spec fn advance(s: MachineState) -> MachineState {
    MachineState {
        pc: wrap16(s.pc + 2),
        delay_timer: if s.delay_timer > 0 { (s.delay_timer - 1) as u8 } else { 0 },
        sound_timer: if s.sound_timer > 0 { (s.sound_timer - 1) as u8 } else { 0 },
        ..s
    }
}

/// `8xy4`: sum modulo 256 into `Vx`, then the carry into `VF`.
pub open spec fn add_registers(regs: Seq<u8>, x: int, y: int) -> Seq<u8> {
    let sum = regs[x] + regs[y];
    regs.update(x, (sum % 256) as u8).update(FLAG as int, if sum > 255 { 1u8 } else { 0u8 })
}

/// `8xy5`: with a borrow `Vx := |Vy - Vx + 1| mod 256` and `VF := 0`,
/// else `Vx := Vx - Vy` and `VF := 1`.
pub open spec fn sub_registers(regs: Seq<u8>, x: int, y: int) -> Seq<u8> {
    let vx = regs[x];
    let vy = regs[y];
    if vy > vx {
        regs.update(x, ((vy - vx + 1) % 256) as u8).update(FLAG as int, 0u8)
    } else {
        regs.update(x, (vx - vy) as u8).update(FLAG as int, 1u8)
    }
}

/// `8xy7`: with a borrow `Vx := |Vy - Vx + 1| mod 256` and `VF := 0`,
/// else `Vx := Vy - Vx` and `VF := 1`.
pub open spec fn subn_registers(regs: Seq<u8>, x: int, y: int) -> Seq<u8> {
    let vx = regs[x];
    let vy = regs[y];
    if vx > vy {
        regs.update(x, ((vx - vy - 1) % 256) as u8).update(FLAG as int, 0u8)
    } else {
        regs.update(x, (vy - vx) as u8).update(FLAG as int, 1u8)
    }
}

/// The registers after the arithmetic and logic instruction `8xyn`, or `None`
/// where `n` names no such instruction. Each step reads the registers as the
/// previous step left them.
pub open spec fn alu_registers(regs: Seq<u8>, x: int, y: int, n: int) -> Option<Seq<u8>> {
    let vx = regs[x];
    let vy = regs[y];
    if n == 0x0 {
        Some(regs.update(x, vy))
    } else if n == 0x1 {
        Some(regs.update(x, vx | vy))
    } else if n == 0x2 {
        Some(regs.update(x, vx & vy))
    } else if n == 0x3 {
        Some(regs.update(x, vx ^ vy))
    } else if n == 0x4 {
        Some(add_registers(regs, x, y))
    } else if n == 0x5 {
        Some(sub_registers(regs, x, y))
    } else if n == 0x6 {
        let flagged = regs.update(FLAG as int, vx & 1);
        Some(flagged.update(x, flagged[x] >> 1u8))
    } else if n == 0x7 {
        Some(subn_registers(regs, x, y))
    } else if n == 0xE {
        let flagged = regs.update(FLAG as int, vx >> 7u8);
        Some(flagged.update(x, flagged[x] << 1u8))
    } else {
        None
    }
}

/// The pixels after drawing the first `rows` sprite rows read from `memory` at
/// `i`, row `r` at `(x, y + r)`, and whether any of them collided.
pub open spec fn draw_rows(pixels: Seq<bool>, memory: Seq<u8>, i: u16, x: u8, y: u8, rows: nat) -> (
    Seq<bool>,
    bool,
)
    decreases rows,
{
    if rows == 0 {
        (pixels, false)
    } else {
        let (before, collided) = draw_rows(pixels, memory, i, x, y, (rows - 1) as nat);
        let row = memory[i + rows - 1];
        let row_y = ((y + rows - 1) % 256) as u8;
        (drawn(before, row, x, row_y), collided || collides(before, row, x, row_y))
    }
}

/// Screen row of sprite row `r` drawn from `y`.
pub open spec fn row_y(y: u8, r: int) -> u8 {
    ((y + r) % 256) as u8
}

/// Whether one of the first `n` sprite rows read at `i` lands on pixel `k`.
pub open spec fn rows_touch(memory: Seq<u8>, i: u16, x: u8, y: u8, n: int, k: int) -> bool {
    exists|r: int| 0 <= r < n && #[trigger] touched(memory[i + r], x, row_y(y, r), 8, k)
}

/// Whether one of the first `n` sprite rows read at `i` has a set bit over a pixel
/// that is off in `pixels`.
pub open spec fn lands_on_dark(pixels: Seq<bool>, memory: Seq<u8>, i: u16, x: u8, y: u8, n: int) -> bool {
    exists|r: int, j: int|
        0 <= r < n && 0 <= j < 8 && sprite_bit(memory[i + r], j) && !#[trigger] pixels[pixel_index(
            x + j,
            row_y(y, r) as int,
        )]
}

proof fn lemma_touched_row(row: u8, x: u8, yy: u8, k: int)
    requires
        touched(row, x, yy, 8, k),
    ensures
        k / 64 == yy % 32,
        0 <= k < PIXEL_COUNT,
{
    let j = choose|j: int| 0 <= j < 8 && sprite_bit(row, j) && k == pixel_index(x + j, yy as int);
    assert(k == (yy % 32) * 64 + ((x + j) % 64));
}

proof fn lemma_rows_apart(y: u8, r1: int, r2: int)
    requires
        0 <= r1 < r2 < 32,
    ensures
        row_y(y, r1) % 32 != row_y(y, r2) % 32,
{
    assert(((y + r1) % 256) % 32 == (y + r1) % 32) by (nonlinear_arith)
        requires
            0 <= r1,
    ;
    assert(((y + r2) % 256) % 32 == (y + r2) % 32) by (nonlinear_arith)
        requires
            0 <= r2,
    ;
}

/// Drawing `n` rows toggles exactly the pixels that some row touches.
proof fn lemma_draw_rows_toggles(pixels: Seq<bool>, memory: Seq<u8>, i: u16, x: u8, y: u8, n: nat)
    requires
        pixels.len() == PIXEL_COUNT,
        n <= 16,
    ensures
        draw_rows(pixels, memory, i, x, y, n).0.len() == PIXEL_COUNT,
        forall|k: int|
            0 <= k < PIXEL_COUNT ==> #[trigger] draw_rows(pixels, memory, i, x, y, n).0[k] == (pixels[k]
                != rows_touch(memory, i, x, y, n as int, k)),
    decreases n,
{
    if n > 0 {
        let m = (n - 1) as nat;
        lemma_draw_rows_toggles(pixels, memory, i, x, y, m);
        let row = memory[i + m];
        assert forall|k: int| 0 <= k < PIXEL_COUNT implies #[trigger] draw_rows(
            pixels,
            memory,
            i,
            x,
            y,
            n,
        ).0[k] == (pixels[k] != rows_touch(memory, i, x, y, n as int, k)) by {
            let last = touched(row, x, row_y(y, m as int), 8, k);
            if rows_touch(memory, i, x, y, m as int, k) {
                let r = choose|r: int|
                    0 <= r < m && #[trigger] touched(memory[i + r], x, row_y(y, r), 8, k);
                lemma_touched_row(memory[i + r], x, row_y(y, r), k);
                if last {
                    lemma_touched_row(row, x, row_y(y, m as int), k);
                    lemma_rows_apart(y, r, m as int);
                }
                assert(rows_touch(memory, i, x, y, n as int, k));
            }
            if last {
                assert(rows_touch(memory, i, x, y, n as int, k));
            }
            if rows_touch(memory, i, x, y, n as int, k) {
                let r = choose|r: int|
                    0 <= r < n && #[trigger] touched(memory[i + r], x, row_y(y, r), 8, k);
                if r < m {
                    assert(rows_touch(memory, i, x, y, m as int, k));
                }
            }
        }
    }
}

/// The second of two equal draws collides on the first `m` rows exactly where a
/// set bit lies over a pixel that was dark before the first draw.
proof fn lemma_second_draw_collides(
    pixels: Seq<bool>,
    memory: Seq<u8>,
    i: u16,
    x: u8,
    y: u8,
    n: nat,
    m: nat,
)
    requires
        pixels.len() == PIXEL_COUNT,
        m <= n <= 16,
    ensures
        draw_rows(draw_rows(pixels, memory, i, x, y, n).0, memory, i, x, y, m).1 == lands_on_dark(
            pixels,
            memory,
            i,
            x,
            y,
            m as int,
        ),
    decreases m,
{
    let once = draw_rows(pixels, memory, i, x, y, n).0;
    if m > 0 {
        let prev = (m - 1) as nat;
        lemma_second_draw_collides(pixels, memory, i, x, y, n, prev);
        lemma_draw_rows_toggles(pixels, memory, i, x, y, n);
        lemma_draw_rows_toggles(once, memory, i, x, y, prev);
        let before = draw_rows(once, memory, i, x, y, prev).0;
        let row = memory[i + prev];
        let yy = row_y(y, prev as int);
        assert forall|j: int| 0 <= j < 8 && sprite_bit(row, j) implies #[trigger] before[pixel_index(
            x + j,
            yy as int,
        )] == !pixels[pixel_index(x + j, yy as int)] by {
            let k = pixel_index(x + j, yy as int);
            assert(touched(row, x, yy, 8, k));
            lemma_touched_row(row, x, yy, k);
            assert(rows_touch(memory, i, x, y, n as int, k));
            if rows_touch(memory, i, x, y, prev as int, k) {
                let r = choose|r: int|
                    0 <= r < prev && #[trigger] touched(memory[i + r], x, row_y(y, r), 8, k);
                lemma_touched_row(memory[i + r], x, row_y(y, r), k);
                lemma_rows_apart(y, r, prev as int);
            }
        }
        if lands_on_dark(pixels, memory, i, x, y, m as int) {
            let (r, j) = choose|r: int, j: int|
                0 <= r < m && 0 <= j < 8 && sprite_bit(memory[i + r], j) && !#[trigger] pixels[pixel_index(
                    x + j,
                    row_y(y, r) as int,
                )];
            if r < prev {
                assert(lands_on_dark(pixels, memory, i, x, y, prev as int));
            } else {
                assert(before[pixel_index(x + j, yy as int)]);
                assert(collides(before, row, x, yy));
            }
        }
        if collides(before, row, x, yy) {
            let j = choose|j: int|
                0 <= j < 8 && sprite_bit(row, j) && #[trigger] before[pixel_index(x + j, yy as int)];
            assert(!pixels[pixel_index(x + j, row_y(y, prev as int) as int)]);
            assert(lands_on_dark(pixels, memory, i, x, y, m as int));
        }
        if lands_on_dark(pixels, memory, i, x, y, prev as int) {
            let (r, j) = choose|r: int, j: int|
                0 <= r < prev && 0 <= j < 8 && sprite_bit(memory[i + r], j) && !#[trigger] pixels[pixel_index(
                    x + j,
                    row_y(y, r) as int,
                )];
            assert(lands_on_dark(pixels, memory, i, x, y, m as int));
        }
    }
}

/// `Dxyn` executed twice from the same place restores every pixel; the second
/// time `VF` is set exactly when a set bit of the sprite lies over a pixel that
/// was off before the first time.
pub proof fn lemma_draw_twice_restores(s: MachineState, op: u16, random1: u8, random2: u8)
    requires
        s.pixels.len() == PIXEL_COUNT,
        s.registers.len() == REGISTER_COUNT,
        op_group(op) == 0xD,
        s.i + op_n(op) <= MEMORY_SIZE,
    ensures
        ({
            let once = execute(s, op, random1);
            let twice = execute(once.0, op, random2);
            let cleared = s.registers.update(FLAG as int, 0u8);
            &&& once.1 is Ok
            &&& twice.1 is Ok
            &&& twice.0.pixels == s.pixels
            &&& (twice.0.registers[FLAG as int] == 1) == lands_on_dark(
                s.pixels,
                s.memory,
                s.i,
                cleared[op_x(op)],
                cleared[op_y(op)],
                op_n(op),
            )
        }),
{
    let n = op_n(op) as nat;
    let cleared = s.registers.update(FLAG as int, 0u8);
    let x = cleared[op_x(op)];
    let y = cleared[op_y(op)];
    let once = execute(s, op, random1).0;
    assert(once.registers.update(FLAG as int, 0u8) =~= cleared);
    let first = draw_rows(s.pixels, s.memory, s.i, x, y, n).0;
    lemma_draw_rows_toggles(s.pixels, s.memory, s.i, x, y, n);
    lemma_draw_rows_toggles(first, s.memory, s.i, x, y, n);
    assert(draw_rows(first, s.memory, s.i, x, y, n).0 =~= s.pixels);
    lemma_second_draw_collides(s.pixels, s.memory, s.i, x, y, n, n);
}

/// `Dxyn`: `VF` is cleared, then `n` rows from `I` are drawn at `(Vx, Vy)`, and
/// `VF` is set if one of them collided.
pub open spec fn draw_effect(s: MachineState, x: int, y: int, n: int) -> (MachineState, Result<bool, Fault>) {
    if n > 0 && s.i + n > MEMORY_SIZE {
        (s, Err(Fault::AddressOutOfRange))
    } else {
        let cleared = s.registers.update(FLAG as int, 0u8);
        let (pixels, collided) = draw_rows(s.pixels, s.memory, s.i, cleared[x], cleared[y], n as nat);
        (
            MachineState {
                pixels,
                registers: cleared.update(FLAG as int, if collided { 1u8 } else { 0u8 }),
                ..s
            },
            Ok(true),
        )
    }
}

/// `Ex9E` consumes the outstanding key and skips if it was `Vx`; `ExA1` skips
/// unless `Vx` is outstanding, consuming nothing.
pub open spec fn key_effect(s: MachineState, op: u16) -> (MachineState, Result<bool, Fault>) {
    let vx = s.registers[op_x(op)];
    if op_nn(op) == 0x9E {
        let (taken, rest) = after_take(s.key);
        (skip_if(MachineState { key: rest, ..s }, taken == Some(vx)), Ok(true))
    } else if op_nn(op) == 0xA1 {
        (skip_if(s, s.key != Some(vx)), Ok(true))
    } else {
        (s, Err(Fault::UnknownOpcode(op)))
    }
}

/// Memory with registers `0..=x` stored from address `i` on.
pub open spec fn stored_registers(memory: Seq<u8>, registers: Seq<u8>, i: u16, x: int) -> Seq<u8> {
    Seq::new(memory.len(), |a: int| if i <= a <= i + x { registers[a - i] } else { memory[a] })
}

/// Registers `0..=x` filled from memory at address `i` on.
pub open spec fn loaded_registers(registers: Seq<u8>, memory: Seq<u8>, i: u16, x: int) -> Seq<u8> {
    Seq::new(registers.len(), |r: int| if r <= x { memory[i + r] } else { registers[r] })
}

/// The timer, key, index and memory instructions `Fxnn`.
pub open spec fn misc_effect(s: MachineState, op: u16) -> (MachineState, Result<bool, Fault>) {
    let x = op_x(op);
    let vx = s.registers[x];
    let nn = op_nn(op);
    if nn == 0x07 {
        (set_register(s, x, s.delay_timer), Ok(true))
    } else if nn == 0x0A {
        match s.key {
            Some(k) => (set_register(MachineState { key: None, ..s }, x, k), Ok(true)),
            None => (s, Ok(false)),
        }
    } else if nn == 0x15 {
        (MachineState { delay_timer: vx, ..s }, Ok(true))
    } else if nn == 0x18 {
        (MachineState { sound_timer: vx, ..s }, Ok(true))
    } else if nn == 0x1E {
        let flagged = s.registers.update(FLAG as int, if s.i + vx > 0xFFF { 1u8 } else { 0u8 });
        (MachineState { registers: flagged, i: wrap16(s.i + flagged[x]), ..s }, Ok(true))
    } else if nn == 0x29 {
        (MachineState { i: (vx * GLYPH_LEN) as u16, ..s }, Ok(true))
    } else if nn == 0x33 {
        if s.i + 2 >= MEMORY_SIZE {
            (s, Err(Fault::AddressOutOfRange))
        } else {
            let memory = s.memory.update(s.i as int, vx / 100).update(s.i + 1, (vx / 10) % 10).update(
                s.i + 2,
                vx % 10,
            );
            (MachineState { memory, ..s }, Ok(true))
        }
    } else if nn == 0x55 {
        if s.i + x >= MEMORY_SIZE {
            (s, Err(Fault::AddressOutOfRange))
        } else {
            (MachineState { memory: stored_registers(s.memory, s.registers, s.i, x), ..s }, Ok(true))
        }
    } else if nn == 0x65 {
        if s.i + x >= MEMORY_SIZE {
            (s, Err(Fault::AddressOutOfRange))
        } else {
            (set_registers(s, loaded_registers(s.registers, s.memory, s.i, x)), Ok(true))
        }
    } else {
        (s, Err(Fault::UnknownOpcode(op)))
    }
}

/// What instruction `op` does to `s`, before the program counter moves on, with
/// `random` as the byte drawn by `Cxnn`. `Ok(true)` asks for the move to the next
/// instruction; `Ok(false)` means the instruction placed the program counter
/// itself, or is the halt sentinel, or waits for a key. A fault leaves `s` as it was.
/// A call pushes its own address, so the return `00EE` resumes there and then
/// moves on past the call.
pub open spec fn effect(s: MachineState, op: u16, random: u8) -> (MachineState, Result<bool, Fault>) {
    let x = op_x(op);
    let y = op_y(op);
    let n = op_n(op);
    let nnn = op_nnn(op);
    let nn = op_nn(op);
    let vx = s.registers[x];
    let vy = s.registers[y];
    let group = op_group(op);
    if op == 0x0000 {
        (s, Ok(false))
    } else if op == 0x00E0 {
        (MachineState { pixels: blank(), ..s }, Ok(true))
    } else if op == 0x00EE {
        if s.stack.len() == 0 {
            (s, Err(Fault::StackUnderflow))
        } else {
            (MachineState { pc: s.stack.last(), stack: s.stack.drop_last(), ..s }, Ok(true))
        }
    } else if group == 0x1 {
        (MachineState { pc: nnn, ..s }, Ok(false))
    } else if group == 0x2 {
        if s.stack.len() >= STACK_DEPTH {
            (s, Err(Fault::StackOverflow))
        } else {
            (MachineState { pc: nnn, stack: s.stack.push(s.pc), ..s }, Ok(false))
        }
    } else if group == 0x3 {
        (skip_if(s, vx == nn), Ok(true))
    } else if group == 0x4 {
        (skip_if(s, vx != nn), Ok(true))
    } else if group == 0x5 && n == 0 {
        (skip_if(s, vx == vy), Ok(true))
    } else if group == 0x6 {
        (set_register(s, x, nn), Ok(true))
    } else if group == 0x7 {
        (set_register(s, x, ((vx + nn) % 256) as u8), Ok(true))
    } else if group == 0x8 && alu_registers(s.registers, x, y, n) is Some {
        (set_registers(s, alu_registers(s.registers, x, y, n).unwrap()), Ok(true))
    } else if group == 0x9 && n == 0 {
        (skip_if(s, vx != vy), Ok(true))
    } else if group == 0xA {
        (MachineState { i: nnn, ..s }, Ok(true))
    } else if group == 0xB {
        (MachineState { pc: (nnn + s.registers[0]) as u16, ..s }, Ok(false))
    } else if group == 0xC {
        (set_register(s, x, random & nn), Ok(true))
    } else if group == 0xD {
        draw_effect(s, x, y, n)
    } else if group == 0xE {
        key_effect(s, op)
    } else if group == 0xF {
        misc_effect(s, op)
    } else {
        (s, Err(Fault::UnknownOpcode(op)))
    }
}

/// Executes `op` on `s`: its effect, then, where it asks for it, the move to the
/// next instruction with one timer tick.
pub open spec fn execute(s: MachineState, op: u16, random: u8) -> (MachineState, Result<(), Fault>) {
    let (t, r) = effect(s, op, random);
    match r {
        Ok(true) => (advance(t), Ok(())),
        Ok(false) => (t, Ok(())),
        Err(f) => (t, Err(f)),
    }
}

/// The big-endian instruction at the program counter.
pub open spec fn fetch(s: MachineState) -> Result<u16, Fault> {
    if s.pc + 1 < MEMORY_SIZE {
        Ok((s.memory[s.pc as int] * 256 + s.memory[s.pc + 1]) as u16)
    } else {
        Err(Fault::AddressOutOfRange)
    }
}

/// One fetch and execute. `Ok(false)` when the halt sentinel was fetched, which
/// changes nothing.
#[verifier::opaque]
pub open spec fn step(s: MachineState, random: u8) -> (MachineState, Result<bool, Fault>) {
    match fetch(s) {
        Err(f) => (s, Err(f)),
        Ok(op) => if op == 0 {
            (s, Ok(false))
        } else {
            let (t, r) = execute(s, op, random);
            match r {
                Ok(()) => (t, Ok(true)),
                Err(f) => (t, Err(f)),
            }
        },
    }
}

/// Steps from `s` until the halt sentinel, a fault, or `fuel` steps, step `k`
/// drawing `randoms[k]` (zero past its end).
pub open spec fn run_from(s: MachineState, randoms: Seq<u8>, fuel: nat) -> (MachineState, Result<(), Fault>)
    decreases fuel,
{
    if fuel == 0 {
        (s, Ok(()))
    } else {
        let random = if randoms.len() > 0 { randoms[0] } else { 0u8 };
        let rest = if randoms.len() > 0 { randoms.drop_first() } else { randoms };
        let (t, r) = step(s, random);
        match r {
            Ok(true) => run_from(t, rest, (fuel - 1) as nat),
            Ok(false) => (t, Ok(())),
            Err(f) => (t, Err(f)),
        }
    }
}

/// After `00E0` no pixel is on, whatever the display held before.
pub proof fn lemma_clear_leaves_no_pixel_on(s: MachineState, random: u8)
    ensures
        count_on(execute(s, 0x00E0, random).0.pixels) == 0,
{
    lemma_count_on_all_off(blank());
}

/// A call `2nnn` followed by the return `00EE` resumes just after the call, with
/// the call stack as it was.
pub proof fn lemma_call_then_return(s: MachineState, nnn: u16, random1: u8, random2: u8)
    requires
        s.stack.len() < STACK_DEPTH,
        nnn < 0x1000,
    ensures
        ({
            let called = execute(s, (0x2000 + nnn) as u16, random1);
            let returned = execute(called.0, 0x00EE, random2);
            &&& called.1 is Ok
            &&& called.0.pc == nnn
            &&& returned.1 is Ok
            &&& returned.0.pc == wrap16(s.pc + 2)
            &&& returned.0.stack == s.stack
        }),
{
    let called = execute(s, (0x2000 + nnn) as u16, random1);
    assert(called.0.stack.drop_last() =~= s.stack);
}

/// `8xy4` leaves the sum modulo 256 in `Vx` and sets `VF` exactly when the sum
/// exceeds 255, for every `x` but the flag register itself.
pub proof fn lemma_add_sets_carry(s: MachineState, op: u16, random: u8)
    requires
        s.registers.len() == REGISTER_COUNT,
        op_group(op) == 0x8,
        op_n(op) == 0x4,
        op_x(op) != FLAG,
    ensures
        ({
            let vx = s.registers[op_x(op)];
            let vy = s.registers[op_y(op)];
            let after = execute(s, op, random).0;
            &&& after.registers[op_x(op)] == (vx + vy) % 256
            &&& (after.registers[FLAG as int] == 1) == (vx + vy > 255)
            &&& (after.registers[FLAG as int] == 0) == (vx + vy <= 255)
        }),
{
}

/// One step taken from the front of the random bytes.
proof fn lemma_run_from_unfold(s: MachineState, random: u8, rest: Seq<u8>, fuel: nat)
    requires
        fuel > 0,
        step(s, random).1 == Ok::<bool, Fault>(true),
    ensures
        run_from(s, seq![random] + rest, fuel) == run_from(step(s, random).0, rest, (fuel - 1) as nat),
{
    assert((seq![random] + rest).drop_first() =~= rest);
}

/// A run whose first step halts or faults.
proof fn lemma_run_from_stops(s: MachineState, random: u8, fuel: nat)
    requires
        fuel > 0,
        step(s, random).1 != Ok::<bool, Fault>(true),
    ensures
        run_from(s, seq![random], fuel) == (step(s, random).0, match step(s, random).1 {
            Err(f) => Err::<(), Fault>(f),
            _ => Ok::<(), Fault>(()),
        }),
{
}

/// The interpreter: memory, registers, call stack, timers, display and keypad.
pub struct Chip8 {
    pub memory: Memory,
    /// Address of the next instruction.
    pub pc: u16,
    /// Index register, used as an address by the memory and drawing instructions.
    pub i: u16,
    pub register: [u8; REGISTER_COUNT],
    /// Return addresses, innermost last; never more than `STACK_DEPTH` of them.
    pub stack: Vec<u16>,
    pub delay_timer: u8,
    pub sound_timer: u8,
    pub screen: Screen,
    pub keyboard: Keypad,
}

impl View for Chip8 {
    type V = MachineState;

    open spec fn view(&self) -> MachineState {
        MachineState {
            memory: self.memory@,
            registers: self.register@,
            i: self.i,
            pc: self.pc,
            stack: self.stack@,
            delay_timer: self.delay_timer,
            sound_timer: self.sound_timer,
            pixels: self.screen@,
            key: self.keyboard@,
        }
    }
}

impl Chip8 {
    /// A machine with the font table at address 0, the program counter at the
    /// load offset, and everything else zero, empty or off.
    pub fn new() -> (c: Self)
        ensures
            c@ == initial_state(),
    {
        let mut memory = Memory::default();
        let mut a: usize = 0;
        while a < FONT_LEN
            invariant
                a <= FONT_LEN,
                memory@.len() == MEMORY_SIZE,
                forall|b: int|
                    0 <= b < MEMORY_SIZE ==> #[trigger] memory@[b] == if b < a {
                        FONT_SET@[b]
                    } else {
                        0u8
                    },
            decreases FONT_LEN - a,
        {
            memory.write(a as u16, FONT_SET[a]);
            a = a + 1;
        }
        let c = Chip8 {
            memory,
            pc: PROGRAM_START as u16,
            i: 0,
            register: [0u8; REGISTER_COUNT],
            stack: Vec::new(),
            delay_timer: 0,
            sound_timer: 0,
            screen: Screen::default(),
            keyboard: Keypad::default(),
        };
        assert(c@ =~= initial_state());
        c
    }

    /// Writes `data[r]` into register `r` for each `r` below `data.len()`.
    pub fn populate_register(&mut self, data: Vec<u8>)
        requires
            data@.len() <= REGISTER_COUNT,
        ensures
            final(self)@ == set_registers(
                old(self)@,
                Seq::new(
                    REGISTER_COUNT as nat,
                    |r: int| if r < data@.len() { data@[r] } else { old(self)@.registers[r] },
                ),
            ),
    {
        let mut idx: usize = 0;
        while idx < data.len()
            invariant
                data@.len() <= REGISTER_COUNT,
                idx <= data@.len(),
                self@ == set_registers(old(self)@, self@.registers),
                forall|r: int|
                    0 <= r < REGISTER_COUNT ==> #[trigger] self@.registers[r] == if r < idx {
                        data@[r]
                    } else {
                        old(self)@.registers[r]
                    },
            decreases data@.len() - idx,
        {
            self.register[idx] = data[idx];
            idx = idx + 1;
        }
        assert(self@.registers =~= Seq::new(
            REGISTER_COUNT as nat,
            |r: int| if r < data@.len() { data@[r] } else { old(self)@.registers[r] },
        ));
    }

    /// Copies `program` to the load offset; fails, changing nothing, when it does not fit.
    pub fn load_into_memory(&mut self, program: Vec<u8>) -> (r: Result<(), ProgramTooLargeError>)
        ensures
            r is Ok <==> program@.len() <= MAX_PROGRAM_LEN,
            r is Ok ==> final(self)@ == (MachineState {
                memory: with_program(old(self)@.memory, program@),
                ..old(self)@
            }),
            r is Err ==> final(self)@ == old(self)@,
    {
        self.memory.load_program(program)
    }

    /// The value of register `addr`, or `None` past the last register.
    pub fn get_value_at_register_addr(&self, addr: u8) -> (v: Option<u8>)
        ensures
            addr < REGISTER_COUNT ==> v == Some(self@.registers[addr as int]),
            addr >= REGISTER_COUNT ==> v is None,
    {
        if (addr as usize) < REGISTER_COUNT {
            Some(self.register[addr as usize])
        } else {
            None
        }
    }

    /// The instruction at the program counter, high byte first.
    fn read_opcode(&self) -> (r: Result<u16, Fault>)
        ensures
            r == fetch(self@),
    {
        if self.pc as usize + 1 >= MEMORY_SIZE {
            return Err(Fault::AddressOutOfRange);
        }
        let high_byte = self.memory.read(self.pc) as u16;
        let low_byte = self.memory.read(self.pc + 1) as u16;
        Ok(high_byte * 256 + low_byte)
    }

    /// Pushes the program counter and jumps to `addr`.
    fn call_fn_at_addr(&mut self, addr: u16) -> (r: Result<(), Fault>)
        ensures
            old(self)@.stack.len() >= STACK_DEPTH ==> r == Err::<(), Fault>(Fault::StackOverflow)
                && final(self)@ == old(self)@,
            old(self)@.stack.len() < STACK_DEPTH ==> r is Ok && final(self)@ == (MachineState {
                pc: addr,
                stack: old(self)@.stack.push(old(self)@.pc),
                ..old(self)@
            }),
    {
        if self.stack.len() >= STACK_DEPTH {
            return Err(Fault::StackOverflow);
        }
        self.stack.push(self.pc);
        self.pc = addr;
        Ok(())
    }

    /// Pops the innermost return address into the program counter.
    fn return_from_fn_call(&mut self) -> (r: Result<(), Fault>)
        ensures
            old(self)@.stack.len() == 0 ==> r == Err::<(), Fault>(Fault::StackUnderflow)
                && final(self)@ == old(self)@,
            old(self)@.stack.len() > 0 ==> r is Ok && final(self)@ == (MachineState {
                pc: old(self)@.stack.last(),
                stack: old(self)@.stack.drop_last(),
                ..old(self)@
            }),
    {
        match self.stack.pop() {
            Some(addr) => {
                self.pc = addr;
                Ok(())
            },
            None => Err(Fault::StackUnderflow),
        }
    }

    /// Continues at `addr`.
    fn set_pc_to_addr(&mut self, addr: u16)
        ensures
            final(self)@ == (MachineState { pc: addr, ..old(self)@ }),
    {
        self.pc = addr;
    }

    /// `8xy4`: see `add_registers`.
    fn add(&mut self, x: usize, y: usize)
        requires
            x < REGISTER_COUNT,
            y < REGISTER_COUNT,
        ensures
            final(self)@ == set_registers(
                old(self)@,
                add_registers(old(self)@.registers, x as int, y as int),
            ),
    {
        let arg1 = self.register[x];
        let arg2 = self.register[y];
        let sum = arg1 as u16 + arg2 as u16;
        self.register[x] = (sum % 256) as u8;
        // The last register doubles as the carry flag.
        if sum > 255 {
            self.register[FLAG] = 1;
        } else {
            self.register[FLAG] = 0;
        }
    }

    /// `8xy5`: see `sub_registers`.
    fn sub(&mut self, x: usize, y: usize)
        requires
            x < REGISTER_COUNT,
            y < REGISTER_COUNT,
        ensures
            final(self)@ == set_registers(
                old(self)@,
                sub_registers(old(self)@.registers, x as int, y as int),
            ),
    {
        let vx = self.register[x];
        let vy = self.register[y];
        if vy > vx {
            // borrow
            self.register[x] = ((vy as u16 - vx as u16 + 1) % 256) as u8;
            self.register[FLAG] = 0;
        } else {
            self.register[x] = vx - vy;
            self.register[FLAG] = 1;
        }
    }

    /// `8xy7`: see `subn_registers`.
    fn subn(&mut self, x: usize, y: usize)
        requires
            x < REGISTER_COUNT,
            y < REGISTER_COUNT,
        ensures
            final(self)@ == set_registers(
                old(self)@,
                subn_registers(old(self)@.registers, x as int, y as int),
            ),
    {
        let vx = self.register[x];
        let vy = self.register[y];
        if vx > vy {
            // borrow
            self.register[x] = vx - vy - 1;
            self.register[FLAG] = 0;
        } else {
            self.register[x] = vy - vx;
            self.register[FLAG] = 1;
        }
    }

    /// The arithmetic and logic instructions `8xyn`.
    fn execute_alu(&mut self, opcode: u16) -> (r: Result<bool, Fault>)
        requires
            op_group(opcode) == 0x8,
        ensures
            (final(self)@, r) == effect(old(self)@, opcode, 0),
    {
        let x = ((opcode / 0x100) % 0x10) as usize;
        let y = ((opcode / 0x10) % 0x10) as usize;
        let n = opcode % 0x10;
        let vx = self.register[x];
        let vy = self.register[y];
        match n {
            0x0 => {
                self.register[x] = vy;
            },
            0x1 => {
                self.register[x] = vx | vy;
            },
            0x2 => {
                self.register[x] = vx & vy;
            },
            0x3 => {
                self.register[x] = vx ^ vy;
            },
            0x4 => {
                self.add(x, y);
            },
            0x5 => {
                self.sub(x, y);
            },
            0x6 => {
                self.register[FLAG] = vx & 1;
                self.register[x] = self.register[x] >> 1u8;
            },
            0x7 => {
                self.subn(x, y);
            },
            0xE => {
                self.register[FLAG] = vx >> 7u8;
                self.register[x] = self.register[x] << 1u8;
            },
            _ => {
                return Err(Fault::UnknownOpcode(opcode));
            },
        }
        Ok(true)
    }
    /// `Dxyn`: see `draw_effect`.
    fn draw(&mut self, opcode: u16) -> (r: Result<bool, Fault>)
        requires
            op_group(opcode) == 0xD,
        ensures
            (final(self)@, r) == effect(old(self)@, opcode, 0),
    {
        let x = ((opcode / 0x100) % 0x10) as usize;
        let y = ((opcode / 0x10) % 0x10) as usize;
        let height = (opcode % 0x10) as u8;
        if height > 0 && self.i as usize + height as usize > MEMORY_SIZE {
            return Err(Fault::AddressOutOfRange);
        }
        let ghost s0 = self@;
        self.register[FLAG] = 0;
        let x_coord = self.register[x];
        let y_coord = self.register[y];
        let mut collided = false;
        let mut yline: u8 = 0;
        while yline < height
            invariant
                yline <= height < 16,
                height > 0 ==> s0.i + height <= MEMORY_SIZE,
                x_coord == s0.registers.update(FLAG as int, 0u8)[x as int],
                y_coord == s0.registers.update(FLAG as int, 0u8)[y as int],
                self@ == (MachineState {
                    pixels: self@.pixels,
                    registers: s0.registers.update(FLAG as int, 0u8),
                    ..s0
                }),
                (self@.pixels, collided) == draw_rows(
                    s0.pixels,
                    s0.memory,
                    s0.i,
                    x_coord,
                    y_coord,
                    yline as nat,
                ),
            decreases height - yline,
        {
            let pixel = self.memory.read(self.i + yline as u16);
            let row_y = ((y_coord as u16 + yline as u16) % 256) as u8;
            if self.screen.draw_sprite_at_location(pixel, x_coord, row_y) {
                collided = true;
            }
            yline = yline + 1;
        }
        if collided {
            self.register[FLAG] = 1;
        }
        Ok(true)
    }

    /// `Ex9E` and `ExA1`: see `key_effect`.
    fn execute_key(&mut self, opcode: u16) -> (r: Result<bool, Fault>)
        requires
            op_group(opcode) == 0xE,
        ensures
            (final(self)@, r) == effect(old(self)@, opcode, 0),
    {
        let x = ((opcode / 0x100) % 0x10) as usize;
        let nn = opcode % 0x100;
        let vx = self.register[x];
        if nn == 0x9E {
            // Consumes the key whether or not it matches.
            if self.keyboard.take_keypress() == Some(vx) {
                self.pc = ((self.pc as u32 + 2) % 0x10000) as u16;
            }
            Ok(true)
        } else if nn == 0xA1 {
            if !self.keyboard.was_key_pressed(vx) {
                self.pc = ((self.pc as u32 + 2) % 0x10000) as u16;
            }
            Ok(true)
        } else {
            Err(Fault::UnknownOpcode(opcode))
        }
    }
    /// `Fx55`: registers `0..=x` to memory from `I` on.
    fn store_registers(&mut self, x: usize) -> (r: Result<bool, Fault>)
        requires
            x < REGISTER_COUNT,
        ensures
            old(self)@.i + x >= MEMORY_SIZE ==> r == Err::<bool, Fault>(Fault::AddressOutOfRange)
                && final(self)@ == old(self)@,
            old(self)@.i + x < MEMORY_SIZE ==> r == Ok::<bool, Fault>(true) && final(self)@ == (MachineState {
                memory: stored_registers(old(self)@.memory, old(self)@.registers, old(self)@.i, x as int),
                ..old(self)@
            }),
    {
        if self.i as usize + x >= MEMORY_SIZE {
            return Err(Fault::AddressOutOfRange);
        }
        let ghost s0 = self@;
        let mut idx: usize = 0;
        while idx <= x
            invariant
                x < REGISTER_COUNT,
                s0.i + x < MEMORY_SIZE,
                idx <= x + 1,
                self@ == (MachineState { memory: self@.memory, ..s0 }),
                self@.memory.len() == MEMORY_SIZE,
                forall|a: int|
                    0 <= a < MEMORY_SIZE ==> #[trigger] self@.memory[a] == if s0.i <= a < s0.i + idx {
                        s0.registers[a - s0.i]
                    } else {
                        s0.memory[a]
                    },
            decreases x + 1 - idx,
        {
            self.memory.write(self.i + idx as u16, self.register[idx]);
            idx = idx + 1;
        }
        assert(self@.memory =~= stored_registers(s0.memory, s0.registers, s0.i, x as int));
        Ok(true)
    }

    /// `Fx65`: registers `0..=x` from memory at `I` on.
    fn load_registers(&mut self, x: usize) -> (r: Result<bool, Fault>)
        requires
            x < REGISTER_COUNT,
        ensures
            old(self)@.i + x >= MEMORY_SIZE ==> r == Err::<bool, Fault>(Fault::AddressOutOfRange)
                && final(self)@ == old(self)@,
            old(self)@.i + x < MEMORY_SIZE ==> r == Ok::<bool, Fault>(true) && final(self)@ == set_registers(
                old(self)@,
                loaded_registers(old(self)@.registers, old(self)@.memory, old(self)@.i, x as int),
            ),
    {
        if self.i as usize + x >= MEMORY_SIZE {
            return Err(Fault::AddressOutOfRange);
        }
        let ghost s0 = self@;
        let mut idx: usize = 0;
        while idx <= x
            invariant
                x < REGISTER_COUNT,
                s0.i + x < MEMORY_SIZE,
                idx <= x + 1,
                self@ == set_registers(s0, self@.registers),
                forall|r: int|
                    0 <= r < REGISTER_COUNT ==> #[trigger] self@.registers[r] == if r < idx {
                        s0.memory[s0.i + r]
                    } else {
                        s0.registers[r]
                    },
            decreases x + 1 - idx,
        {
            self.register[idx] = self.memory.read(self.i + idx as u16);
            idx = idx + 1;
        }
        assert(self@.registers =~= loaded_registers(s0.registers, s0.memory, s0.i, x as int));
        Ok(true)
    }

    /// The timer, key, index and memory instructions `Fxnn`: see `misc_effect`.
    fn execute_misc(&mut self, opcode: u16) -> (r: Result<bool, Fault>)
        requires
            op_group(opcode) == 0xF,
        ensures
            (final(self)@, r) == effect(old(self)@, opcode, 0),
    {
        let x = ((opcode / 0x100) % 0x10) as usize;
        let nn = opcode % 0x100;
        let vx = self.register[x];
        match nn {
            0x07 => {
                self.register[x] = self.delay_timer;
            },
            0x0A => {
                // Without a key the instruction is issued again on the next step.
                match self.keyboard.take_keypress() {
                    Some(key) => {
                        self.register[x] = key;
                    },
                    None => {
                        return Ok(false);
                    },
                }
            },
            0x15 => {
                self.delay_timer = vx;
            },
            0x18 => {
                self.sound_timer = vx;
            },
            0x1E => {
                let sum = self.i as u32 + vx as u32;
                self.register[FLAG] = if sum > 0xFFF {
                    1
                } else {
                    0
                };
                self.i = ((self.i as u32 + self.register[x] as u32) % 0x10000) as u16;
            },
            0x29 => {
                self.i = vx as u16 * GLYPH_LEN;
            },
            0x33 => {
                if self.i as usize + 2 >= MEMORY_SIZE {
                    return Err(Fault::AddressOutOfRange);
                }
                self.memory.write(self.i, vx / 100);
                self.memory.write(self.i + 1, (vx / 10) % 10);
                self.memory.write(self.i + 2, vx % 10);
            },
            0x55 => {
                return self.store_registers(x);
            },
            0x65 => {
                return self.load_registers(x);
            },
            _ => {
                return Err(Fault::UnknownOpcode(opcode));
            },
        }
        Ok(true)
    }
    /// The effect of `opcode`, before the move to the next instruction; see `effect`.
    fn dispatch(&mut self, opcode: u16, random: u8) -> (r: Result<bool, Fault>)
        ensures
            (final(self)@, r) == effect(old(self)@, opcode, random),
    {
        let group = opcode / 0x1000;
        let x = ((opcode / 0x100) % 0x10) as usize;
        let y = ((opcode / 0x10) % 0x10) as usize;
        let n = opcode % 0x10;
        let nnn = opcode % 0x1000;
        let nn = (opcode % 0x100) as u8;
        if opcode == 0x0000 {
            return Ok(false);
        }
        if opcode == 0x00E0 {
            self.screen.clear_screen();
            return Ok(true);
        }
        if opcode == 0x00EE {
            return match self.return_from_fn_call() {
                Ok(()) => Ok(true),
                Err(f) => Err(f),
            };
        }
        match group {
            0x1 => {
                self.set_pc_to_addr(nnn);
                Ok(false)
            },
            0x2 => match self.call_fn_at_addr(nnn) {
                Ok(()) => Ok(false),
                Err(f) => Err(f),
            },
            0x3 => {
                if self.register[x] == nn {
                    self.pc = ((self.pc as u32 + 2) % 0x10000) as u16;
                }
                Ok(true)
            },
            0x4 => {
                if self.register[x] != nn {
                    self.pc = ((self.pc as u32 + 2) % 0x10000) as u16;
                }
                Ok(true)
            },
            0x5 if n == 0 => {
                if self.register[x] == self.register[y] {
                    self.pc = ((self.pc as u32 + 2) % 0x10000) as u16;
                }
                Ok(true)
            },
            0x6 => {
                self.register[x] = nn;
                Ok(true)
            },
            0x7 => {
                self.register[x] = ((self.register[x] as u16 + nn as u16) % 256) as u8;
                Ok(true)
            },
            0x8 => self.execute_alu(opcode),
            0x9 if n == 0 => {
                if self.register[x] != self.register[y] {
                    self.pc = ((self.pc as u32 + 2) % 0x10000) as u16;
                }
                Ok(true)
            },
            0xA => {
                self.i = nnn;
                Ok(true)
            },
            0xB => {
                self.set_pc_to_addr(nnn + self.register[0] as u16);
                Ok(false)
            },
            0xC => {
                self.register[x] = random & nn;
                Ok(true)
            },
            0xD => self.draw(opcode),
            0xE => self.execute_key(opcode),
            0xF => self.execute_misc(opcode),
            _ => Err(Fault::UnknownOpcode(opcode)),
        }
    }

    /// Executes `opcode`, with `random` as the byte that `Cxnn` draws: its effect,
    /// then, unless it placed the program counter itself, halted or waits for a
    /// key, the move to the next instruction and one tick of both timers.
    /// On a fault nothing changes.
    pub fn execute_instruction_with(&mut self, opcode: u16, random: u8) -> (r: Result<(), Fault>)
        ensures
            (final(self)@, r) == execute(old(self)@, opcode, random),
    {
        match self.dispatch(opcode, random) {
            Ok(true) => {
                self.pc = ((self.pc as u32 + 2) % 0x10000) as u16;
                if self.delay_timer > 0 {
                    self.delay_timer = self.delay_timer - 1;
                }
                if self.sound_timer > 0 {
                    self.sound_timer = self.sound_timer - 1;
                }
                Ok(())
            },
            Ok(false) => Ok(()),
            Err(f) => Err(f),
        }
    }

    /// Executes `opcode`; `Cxnn` draws its byte from the thread's random generator.
    pub fn execute_instruction(&mut self, opcode: u16) -> (r: Result<(), Fault>)
        ensures
            exists|random: u8| (final(self)@, r) == #[trigger] execute(old(self)@, opcode, random),
            op_group(opcode) != 0xC ==> (final(self)@, r) == execute(old(self)@, opcode, 0),
    {
        let random = if opcode / 0x1000 == 0xC {
            rand::random::<u8>()
        } else {
            0
        };
        let ghost s0 = self@;
        let r = self.execute_instruction_with(opcode, random);
        assert((self@, r) == execute(s0, opcode, random));
        r
    }

    /// Fetches and executes one instruction. `Ok(false)` when the halt sentinel
    /// was fetched, which changes nothing.
    pub fn execute_single_instruction(&mut self) -> (r: Result<bool, Fault>)
        ensures
            exists|random: u8| (final(self)@, r) == #[trigger] step(old(self)@, random),
    {
        reveal(step);
        let ghost s0 = self@;
        let opcode = match self.read_opcode() {
            Ok(op) => op,
            Err(f) => {
                assert((self@, Err::<bool, Fault>(f)) == step(s0, 0));
                return Err(f);
            },
        };
        if opcode == 0 {
            assert((self@, Ok::<bool, Fault>(false)) == step(s0, 0));
            return Ok(false);
        }
        let random = if opcode / 0x1000 == 0xC {
            rand::random::<u8>()
        } else {
            0
        };
        let r = match self.execute_instruction_with(opcode, random) {
            Ok(()) => Ok(true),
            Err(f) => Err(f),
        };
        assert((self@, r) == step(s0, random));
        r
    }
    /// Steps until the halt sentinel is fetched or a fault occurs, drawing a
    /// random byte for each `Cxnn`. Gives up after `STEP_LIMIT` steps.
    pub fn run(&mut self) -> (r: Result<(), Fault>)
        ensures
            exists|randoms: Seq<u8>|
                (final(self)@, r) == #[trigger] run_from(old(self)@, randoms, STEP_LIMIT as nat),
    {
        let ghost s0 = self@;
        let ghost used: Seq<u8> = Seq::empty();
        let mut remaining: u64 = STEP_LIMIT;
        proof {
            assert forall|rest: Seq<u8>|
                #[trigger] run_from(s0, used + rest, STEP_LIMIT as nat) == run_from(
                    self@,
                    rest,
                    remaining as nat,
                ) by {
                assert(used + rest =~= rest);
            }
        }
        let mut outcome: Result<(), Fault> = Ok(());
        let mut stopped = false;
        while remaining > 0 && !stopped
            invariant
                !stopped ==> forall|rest: Seq<u8>|
                    #[trigger] run_from(s0, used + rest, STEP_LIMIT as nat) == run_from(
                        self@,
                        rest,
                        remaining as nat,
                    ),
                stopped ==> run_from(s0, used, STEP_LIMIT as nat) == (self@, outcome),
                !stopped ==> outcome == Ok::<(), Fault>(()),
            decreases remaining,
        {
            let ghost before = self@;
            let r = self.execute_single_instruction();
            let ghost random = choose|random: u8| (self@, r) == #[trigger] step(before, random);
            match r {
                Ok(true) => {
                    proof {
                        assert forall|rest: Seq<u8>|
                            #[trigger] run_from(s0, used.push(random) + rest, STEP_LIMIT as nat)
                                == run_from(self@, rest, (remaining - 1) as nat) by {
                            assert(used.push(random) + rest =~= used + (seq![random] + rest));
                            lemma_run_from_unfold(before, random, rest, remaining as nat);
                        }
                    }
                },
                Ok(false) => {
                    stopped = true;
                    proof {
                        lemma_run_from_stops(before, random, remaining as nat);
                        assert(run_from(s0, used + seq![random], STEP_LIMIT as nat) == (self@, outcome));
                    }
                },
                Err(f) => {
                    stopped = true;
                    outcome = Err(f);
                    proof {
                        lemma_run_from_stops(before, random, remaining as nat);
                        assert(run_from(s0, used + seq![random], STEP_LIMIT as nat) == (self@, outcome));
                    }
                },
            }
            proof {
                assert(used + seq![random] =~= used.push(random));
                used = used.push(random);
            }
            remaining = remaining - 1;
        }
        if !stopped {
            assert(run_from(s0, used + Seq::<u8>::empty(), STEP_LIMIT as nat) == (self@, outcome));
        }
        outcome
    }
}

} // verus!
