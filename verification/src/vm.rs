//! The instruction execution engine: CPU state (registers, program counter,
//! call stack, 4096 bytes of memory) and the fetch-decode-execute step over
//! the full opcode table. Each step fetches one big-endian 16-bit word,
//! advances the counter by 2, dispatches on the top nibble, and lands its
//! side effects on the CPU state and on the framebuffer, input latch and
//! timers passed in as mutable collaborators.

use vstd::prelude::*;

use crate::display::{Display, DISPLAY_HEIGHT, DISPLAY_WIDTH, blank_grid, pixel_index};
use crate::keyboard::Keyboard;
use crate::sound::Sound;
use crate::timer::Timer;
use rand::RngExt;

verus! {

/// A failing step or load, reported to the driver and non-fatal to it.
#[derive(Clone, Copy, Debug, PartialEq, Eq, Structural)]
pub enum VmError {
    /// A return was executed with an empty call stack.
    EmptyCallStack,
    /// A call was executed with all 16 stack slots in use.
    CallStackOverflow,
    /// A program image larger than the memory left above the reserved region.
    ProgramTooLarge,
}

pub const MEMORY_SIZE: usize = 4096;

pub const PROGRAM_START_ADDRESS: u16 = 0x200;

pub const FONT_SIZE: u16 = 5;

/// Field of an opcode: the top nibble, selecting the opcode class.
pub open spec fn op_class(op: u16) -> int {
    (op >> 12u16) as int
}

/// Field of an opcode: the x register index (second nibble).
pub open spec fn op_x(op: u16) -> int {
    ((op >> 8u16) & 0xF) as int
}

/// Field of an opcode: the y register index (third nibble).
pub open spec fn op_y(op: u16) -> int {
    ((op >> 4u16) & 0xF) as int
}

/// Field of an opcode: the low 12-bit address.
pub open spec fn op_addr(op: u16) -> u16 {
    op & 0xFFF
}

/// Field of an opcode: the low byte.
pub open spec fn op_byte(op: u16) -> u8 {
    (op & 0xFF) as u8
}

/// Field of an opcode: the low nibble.
pub open spec fn op_n(op: u16) -> int {
    (op & 0xF) as int
}

pub fn decode_x(opcode: u16) -> (x: usize)
    ensures
        x as int == op_x(opcode),
        x < 16,
{
    proof {
        assert((opcode >> 8u16) & 0xF < 16) by (bit_vector);
    }
    ((opcode >> 8u16) & 0xF) as usize
}

pub fn decode_y(opcode: u16) -> (y: usize)
    ensures
        y as int == op_y(opcode),
        y < 16,
{
    proof {
        assert((opcode >> 4u16) & 0xF < 16) by (bit_vector);
    }
    ((opcode >> 4u16) & 0xF) as usize
}

pub fn decode_addr(opcode: u16) -> (a: u16)
    ensures
        a == op_addr(opcode),
        a < 0x1000,
{
    proof {
        assert(opcode & 0xFFF < 0x1000) by (bit_vector);
    }
    opcode & 0xFFF
}

pub fn decode_byte(opcode: u16) -> (b: u8)
    ensures
        b == op_byte(opcode),
{
    (opcode & 0xFF) as u8
}

pub fn decode_nibb(opcode: u16) -> (n: usize)
    ensures
        n as int == op_n(opcode),
        n < 16,
{
    proof {
        assert(opcode & 0xF < 16) by (bit_vector);
    }
    (opcode & 0xF) as usize
}

/// The built-in font table: 16 glyphs of 5 bytes each, installed at the
/// bottom of memory on every reset.
pub open spec fn font_seq() -> Seq<u8> {
    seq![
        0xF0u8, 0x90, 0x90, 0x90, 0xF0, // 0
        0x20, 0x60, 0x20, 0x20, 0x70, // 1
        0xF0, 0x10, 0xF0, 0x80, 0xF0, // 2
        0xF0, 0x10, 0xF0, 0x10, 0xF0, // 3
        0x90, 0x90, 0xF0, 0x10, 0x10, // 4
        0xF0, 0x80, 0xF0, 0x10, 0xF0, // 5
        0xF0, 0x80, 0xF0, 0x90, 0xF0, // 6
        0xF0, 0x10, 0x20, 0x40, 0x40, // 7
        0xF0, 0x90, 0xF0, 0x90, 0xF0, // 8
        0xF0, 0x90, 0xF0, 0x10, 0xF0, // 9
        0xF0, 0x90, 0xF0, 0x90, 0x90, // A
        0xE0, 0x90, 0xE0, 0x90, 0xE0, // B
        0xF0, 0x80, 0x80, 0x80, 0xF0, // C
        0xE0, 0x90, 0x90, 0x90, 0xE0, // D
        0xF0, 0x80, 0xF0, 0x80, 0xF0, // E
        0xF0, 0x80, 0xF0, 0x80, 0x80, // F
    ]
}

fn font_table() -> (f: Vec<u8>)
    ensures
        f@ == font_seq(),
{
    let f: Vec<u8> = vec![
        0xF0u8, 0x90, 0x90, 0x90, 0xF0, 0x20, 0x60, 0x20, 0x20, 0x70, 0xF0, 0x10, 0xF0, 0x80,
        0xF0, 0xF0, 0x10, 0xF0, 0x10, 0xF0, 0x90, 0x90, 0xF0, 0x10, 0x10, 0xF0, 0x80, 0xF0,
        0x10, 0xF0, 0xF0, 0x80, 0xF0, 0x90, 0xF0, 0xF0, 0x10, 0x20, 0x40, 0x40, 0xF0, 0x90,
        0xF0, 0x90, 0xF0, 0xF0, 0x90, 0xF0, 0x10, 0xF0, 0xF0, 0x90, 0xF0, 0x90, 0x90, 0xE0,
        0x90, 0xE0, 0x90, 0xE0, 0xF0, 0x80, 0x80, 0x80, 0xF0, 0xE0, 0x90, 0x90, 0x90, 0xE0,
        0xF0, 0x80, 0xF0, 0x80, 0xF0, 0xF0, 0x80, 0xF0, 0x80, 0x80,
    ];
    assert(f@ =~= font_seq());
    f
}

/// Draws one byte from the operating system's thread-local generator.
/// Relies on rand::rng and rand::RngExt::random: the byte is random, so nothing
/// is promised of its value.
#[verifier::external_body]
fn random_byte() -> u8 {
    rand::rng().random::<u8>()
}

pub struct VirtualMachine {
    /// The 16-bit index register.
    pub i: u16,
    /// The program counter.
    pub pc: u16,
    /// The call stack pointer: the number of return addresses in use.
    pub sp: u8,
    /// The 16 general-purpose registers; register 15 doubles as the flag
    /// register that several opcodes overwrite.
    pub v: Vec<u8>,
    /// The 4096-byte addressable memory.
    pub memory: Vec<u8>,
    /// The 16 call stack slots.
    pub stack: Vec<u16>,
}

/// Everything but the program counter is equal.
pub open spec fn eq_except_pc(a: VirtualMachine, b: VirtualMachine) -> bool {
    &&& b.i == a.i
    &&& b.sp == a.sp
    &&& b.v@ == a.v@
    &&& b.memory@ == a.memory@
    &&& b.stack@ == a.stack@
}

/// Everything but the program counter and the registers is equal.
pub open spec fn eq_except_pc_v(a: VirtualMachine, b: VirtualMachine) -> bool {
    &&& b.i == a.i
    &&& b.sp == a.sp
    &&& b.memory@ == a.memory@
    &&& b.stack@ == a.stack@
}

/// Everything but the program counter and the index register is equal.
pub open spec fn eq_except_pc_i(a: VirtualMachine, b: VirtualMachine) -> bool {
    &&& b.sp == a.sp
    &&& b.v@ == a.v@
    &&& b.memory@ == a.memory@
    &&& b.stack@ == a.stack@
}

/// Everything but the program counter and memory is equal.
pub open spec fn eq_except_pc_mem(a: VirtualMachine, b: VirtualMachine) -> bool {
    &&& b.i == a.i
    &&& b.sp == a.sp
    &&& b.v@ == a.v@
    &&& b.stack@ == a.stack@
}

/// Everything but the control flow state (counter, stack, stack pointer) is
/// equal.
pub open spec fn eq_except_flow(a: VirtualMachine, b: VirtualMachine) -> bool {
    &&& b.i == a.i
    &&& b.v@ == a.v@
    &&& b.memory@ == a.memory@
}

/// Memory after a program image is copied in at the program start address.
pub open spec fn loaded_mem(mem: Seq<u8>, bytes: Seq<u8>) -> Seq<u8> {
    Seq::new(
        mem.len(),
        |j: int|
            if PROGRAM_START_ADDRESS <= j < PROGRAM_START_ADDRESS + bytes.len() {
                bytes[j - PROGRAM_START_ADDRESS]
            } else {
                mem[j]
            },
    )
}

/// The registers after one operation of the register-register arithmetic and
/// logic group, chosen by the low nibble `n`: load, or, and, xor, add with
/// carry flag, subtract with not-borrow flag, shift right with shifted-out
/// bit, reverse subtract with not-borrow flag, shift left with shifted-out
/// bit. The flag lands in register 15 before the result is stored, exactly as
/// the engine writes them. Any other nibble leaves the registers alone.
pub open spec fn alu_v(v: Seq<u8>, x: int, y: int, n: int) -> Seq<u8> {
    if n == 0 {
        v.update(x, v[y])
    } else if n == 1 {
        v.update(x, v[x] | v[y])
    } else if n == 2 {
        v.update(x, v[x] & v[y])
    } else if n == 3 {
        v.update(x, v[x] ^ v[y])
    } else if n == 4 {
        v.update(
            15,
            if v[x] + v[y] > 255 {
                1u8
            } else {
                0u8
            },
        ).update(x, ((v[x] + v[y]) % 256) as u8)
    } else if n == 5 {
        v.update(
            15,
            if v[x] >= v[y] {
                1u8
            } else {
                0u8
            },
        ).update(x, ((v[x] - v[y]) % 256) as u8)
    } else if n == 6 {
        let v1 = v.update(15, (v[x] % 2) as u8);
        v1.update(x, (v1[x] / 2) as u8)
    } else if n == 7 {
        v.update(
            15,
            if v[y] >= v[x] {
                1u8
            } else {
                0u8
            },
        ).update(x, ((v[y] - v[x]) % 256) as u8)
    } else if n == 14 {
        let v1 = v.update(15, (v[x] / 128) as u8);
        v1.update(x, ((v1[x] * 2) % 256) as u8)
    } else {
        v
    }
}

/// Bit `c` of a sprite row byte, most-significant bit first.
pub open spec fn sprite_row_bit(b: u8, c: int) -> bool {
    (b >> ((7 - c) as u8)) & 1 == 1
}

/// The sprite row whose pixels land on grid index `i` when a sprite is drawn
/// at vertical origin `y` (rows wrap modulo the display height).
pub open spec fn sprite_row(y: int, i: int) -> int {
    (i / (DISPLAY_WIDTH as int) - y) % (DISPLAY_HEIGHT as int)
}

/// The sprite column whose pixels land on grid index `i` when a sprite is
/// drawn at horizontal origin `x` (columns wrap modulo the display width).
pub open spec fn sprite_col(x: int, i: int) -> int {
    (i % (DISPLAY_WIDTH as int) - x) % (DISPLAY_WIDTH as int)
}

/// Whether grid index `i` is covered by the prefix of a sprite drawn at the
/// wrapped origin `(x, y)`: the first `nrows` full rows plus the first
/// `ncols` columns of row `nrows`.
pub open spec fn covered_upto(x: int, y: int, nrows: int, ncols: int, i: int) -> bool {
    sprite_col(x, i) < 8 && (sprite_row(y, i) < nrows || (sprite_row(y, i) == nrows && sprite_col(
        x,
        i,
    ) < ncols))
}

/// The grid after the prefix of a sprite is XOR-drawn at the wrapped origin
/// `(x, y)`: each covered pixel is toggled by its sprite bit, every other
/// pixel keeps its value.
pub open spec fn drawn_grid_upto(
    g: Seq<bool>,
    x: int,
    y: int,
    rows: Seq<u8>,
    nrows: int,
    ncols: int,
) -> Seq<bool> {
    Seq::new(
        g.len(),
        |i: int|
            if covered_upto(x, y, nrows, ncols, i) {
                g[i] != sprite_row_bit(rows[sprite_row(y, i)], sprite_col(x, i))
            } else {
                g[i]
            },
    )
}

/// The grid after a whole sprite is XOR-drawn at the wrapped origin `(x, y)`.
pub open spec fn drawn_grid(g: Seq<bool>, x: int, y: int, rows: Seq<u8>) -> Seq<bool> {
    drawn_grid_upto(g, x, y, rows, rows.len() as int, 0)
}

/// Whether some lit sprite bit in the prefix falls on a pixel already lit in
/// `g`.
pub open spec fn collides_upto(
    g: Seq<bool>,
    x: int,
    y: int,
    rows: Seq<u8>,
    nrows: int,
    ncols: int,
) -> bool {
    exists|r: int, c: int|
        0 <= r && 0 <= c < 8 && (r < nrows || (r == nrows && c < ncols)) && sprite_row_bit(
            rows[r],
            c,
        ) && g[pixel_index(x + c, y + r)]
}

/// Whether a whole sprite drawn at the wrapped origin `(x, y)` collides with
/// a pixel already lit in `g`.
pub open spec fn draw_collides(g: Seq<bool>, x: int, y: int, rows: Seq<u8>) -> bool {
    collides_upto(g, x, y, rows, rows.len() as int, 0)
}

/// Drawing a sprite pixel at offset `(c, r)` from the origin `(x, y)` lands
/// on the grid index whose recovered sprite coordinates are `(c, r)` again.
pub proof fn lemma_coords_of_index(x: int, y: int, c: int, r: int)
    requires
        0 <= c < DISPLAY_WIDTH,
        0 <= r < DISPLAY_HEIGHT,
    ensures
        sprite_col(x, pixel_index(x + c, y + r)) == c,
        sprite_row(y, pixel_index(x + c, y + r)) == r,
{
    let w = DISPLAY_WIDTH as int;
    let h = DISPLAY_HEIGHT as int;
    let q = (y + r) % h;
    let m = (x + c) % w;
    vstd::arithmetic::div_mod::lemma_mod_bound(y + r, h);
    vstd::arithmetic::div_mod::lemma_mod_bound(x + c, w);
    let i = pixel_index(x + c, y + r);
    assert(i == q * w + m);
    vstd::arithmetic::div_mod::lemma_fundamental_div_mod_converse(i, w, q, m);
    assert(i % w == m && i / w == q);
    vstd::arithmetic::div_mod::lemma_sub_mod_noop_right(m, x, w);
    vstd::arithmetic::div_mod::lemma_sub_mod_noop(x + c, x, w);
    vstd::arithmetic::div_mod::lemma_small_mod(c as nat, w as nat);
    assert(sprite_col(x, i) == c);
    vstd::arithmetic::div_mod::lemma_sub_mod_noop_right(q, y, h);
    vstd::arithmetic::div_mod::lemma_sub_mod_noop(y + r, y, h);
    vstd::arithmetic::div_mod::lemma_small_mod(r as nat, h as nat);
    assert(sprite_row(y, i) == r);
}

/// Every grid index is reached by exactly the sprite offset that its
/// recovered sprite coordinates name.
pub proof fn lemma_index_of_coords(x: int, y: int, i: int)
    requires
        0 <= i < DISPLAY_WIDTH * DISPLAY_HEIGHT,
    ensures
        0 <= sprite_row(y, i) < DISPLAY_HEIGHT,
        0 <= sprite_col(x, i) < DISPLAY_WIDTH,
        pixel_index(x + sprite_col(x, i), y + sprite_row(y, i)) == i,
{
    let w = DISPLAY_WIDTH as int;
    let h = DISPLAY_HEIGHT as int;
    let py = i / w;
    let px = i % w;
    vstd::arithmetic::div_mod::lemma_mod_bound(i, w);
    vstd::arithmetic::div_mod::lemma_fundamental_div_mod(i, w);
    assert(i == w * py + px);
    assert(0 <= py < h);
    let r = sprite_row(y, i);
    let c = sprite_col(x, i);
    vstd::arithmetic::div_mod::lemma_mod_bound(py - y, h);
    vstd::arithmetic::div_mod::lemma_mod_bound(px - x, w);
    vstd::arithmetic::div_mod::lemma_add_mod_noop_right(y, py - y, h);
    vstd::arithmetic::div_mod::lemma_small_mod(py as nat, h as nat);
    assert((y + r) % h == py);
    vstd::arithmetic::div_mod::lemma_add_mod_noop_right(x, px - x, w);
    vstd::arithmetic::div_mod::lemma_small_mod(px as nat, w as nat);
    assert((x + c) % w == px);
    assert(pixel_index(x + c, y + r) == py * w + px);
}

/// Memory after registers 0 through `x` are stored at addresses `i` through
/// `i + x`.
pub open spec fn stored_regs(mem: Seq<u8>, i: int, v: Seq<u8>, x: int) -> Seq<u8> {
    Seq::new(
        mem.len(),
        |j: int|
            if i <= j <= i + x {
                v[j - i]
            } else {
                mem[j]
            },
    )
}

/// Registers after slots 0 through `x` are loaded from addresses `i` through
/// `i + x`.
pub open spec fn loaded_regs(v: Seq<u8>, mem: Seq<u8>, i: int, x: int) -> Seq<u8> {
    Seq::new(
        v.len(),
        |j: int|
            if 0 <= j <= x {
                mem[i + j]
            } else {
                v[j]
            },
    )
}


/// The full transition relation of one engine step, from the pre-fetch state
/// `pre`: what one call of `step` does to the CPU state, the timers, the
/// framebuffer and the input latch, and which result it returns, for every
/// opcode class. The one nondeterministic transition is the random class,
/// stated over some byte.
pub open spec fn step_rel(
    pre: VirtualMachine,
    post: VirtualMachine,
    t0: Timer,
    t1: Timer,
    s0: Sound,
    s1: Sound,
    d0: Display,
    d1: Display,
    k0: Keyboard,
    k1: Keyboard,
    res: Result<(), VmError>,
) -> bool {
    let op = pre.spec_opcode();
    let pc2 = pre.pc + 2;
    let cls = op_class(op);
    if cls == 0x0 {
        &&& t1 == t0
        &&& s1 == s0
        &&& k1 == k0
        &&& if op == 0x00E0 {
            &&& post.pc as int == pc2
            &&& eq_except_pc(pre, post)
            &&& d1.grid() == blank_grid()
            &&& res == Ok::<(), VmError>(())
        } else if op == 0x00EE {
            if pre.sp == 0 {
                &&& post.pc as int == pc2
                &&& eq_except_pc(pre, post)
                &&& d1 == d0
                &&& res == Err::<(), VmError>(VmError::EmptyCallStack)
            } else {
                &&& post.pc == pre.stack@[pre.sp - 1]
                &&& post.sp == pre.sp - 1
                &&& eq_except_flow(pre, post)
                &&& post.stack@ == pre.stack@
                &&& d1 == d0
                &&& res == Ok::<(), VmError>(())
            }
        } else {
            &&& post.pc as int == pc2
            &&& eq_except_pc(pre, post)
            &&& d1 == d0
            &&& res == Ok::<(), VmError>(())
        }
    } else if cls == 0x1 {
        &&& post.pc == op_addr(op)
        &&& eq_except_pc(pre, post)
        &&& t1 == t0 && s1 == s0 && d1 == d0 && k1 == k0
        &&& res == Ok::<(), VmError>(())
    } else if cls == 0x2 {
        &&& t1 == t0 && s1 == s0 && d1 == d0 && k1 == k0
        &&& if pre.sp >= 16 {
            &&& post.pc as int == pc2
            &&& eq_except_pc(pre, post)
            &&& res == Err::<(), VmError>(VmError::CallStackOverflow)
        } else {
            &&& post.pc == op_addr(op)
            &&& post.sp == pre.sp + 1
            &&& post.stack@ == pre.stack@.update(pre.sp as int, pc2 as u16)
            &&& eq_except_flow(pre, post)
            &&& res == Ok::<(), VmError>(())
        }
    } else if cls == 0x3 {
        &&& post.pc as int == pc2 + (if pre.v@[op_x(op)] == op_byte(op) {
            2int
        } else {
            0int
        })
        &&& eq_except_pc(pre, post)
        &&& t1 == t0 && s1 == s0 && d1 == d0 && k1 == k0
        &&& res == Ok::<(), VmError>(())
    } else if cls == 0x4 {
        &&& post.pc as int == pc2 + (if pre.v@[op_x(op)] != op_byte(op) {
            2int
        } else {
            0int
        })
        &&& eq_except_pc(pre, post)
        &&& t1 == t0 && s1 == s0 && d1 == d0 && k1 == k0
        &&& res == Ok::<(), VmError>(())
    } else if cls == 0x5 {
        &&& post.pc as int == pc2 + (if op_n(op) == 0 && pre.v@[op_x(op)] == pre.v@[op_y(op)] {
            2int
        } else {
            0int
        })
        &&& eq_except_pc(pre, post)
        &&& t1 == t0 && s1 == s0 && d1 == d0 && k1 == k0
        &&& res == Ok::<(), VmError>(())
    } else if cls == 0x6 {
        &&& post.pc as int == pc2
        &&& post.v@ == pre.v@.update(op_x(op), op_byte(op))
        &&& eq_except_pc_v(pre, post)
        &&& t1 == t0 && s1 == s0 && d1 == d0 && k1 == k0
        &&& res == Ok::<(), VmError>(())
    } else if cls == 0x7 {
        &&& post.pc as int == pc2
        &&& post.v@ == pre.v@.update(op_x(op), ((pre.v@[op_x(op)] + op_byte(op)) % 256) as u8)
        &&& eq_except_pc_v(pre, post)
        &&& t1 == t0 && s1 == s0 && d1 == d0 && k1 == k0
        &&& res == Ok::<(), VmError>(())
    } else if cls == 0x8 {
        &&& post.pc as int == pc2
        &&& post.v@ == alu_v(pre.v@, op_x(op), op_y(op), op_n(op))
        &&& eq_except_pc_v(pre, post)
        &&& t1 == t0 && s1 == s0 && d1 == d0 && k1 == k0
        &&& res == Ok::<(), VmError>(())
    } else if cls == 0x9 {
        &&& post.pc as int == pc2 + (if op_n(op) == 0 && pre.v@[op_x(op)] != pre.v@[op_y(op)] {
            2int
        } else {
            0int
        })
        &&& eq_except_pc(pre, post)
        &&& t1 == t0 && s1 == s0 && d1 == d0 && k1 == k0
        &&& res == Ok::<(), VmError>(())
    } else if cls == 0xA {
        &&& post.pc as int == pc2
        &&& post.i == op_addr(op)
        &&& eq_except_pc_i(pre, post)
        &&& t1 == t0 && s1 == s0 && d1 == d0 && k1 == k0
        &&& res == Ok::<(), VmError>(())
    } else if cls == 0xB {
        &&& post.pc as int == (op_addr(op) + pre.v@[0]) % 0x10000
        &&& eq_except_pc(pre, post)
        &&& t1 == t0 && s1 == s0 && d1 == d0 && k1 == k0
        &&& res == Ok::<(), VmError>(())
    } else if cls == 0xC {
        &&& post.pc as int == pc2
        &&& exists|rb: u8| post.v@ == pre.v@.update(op_x(op), rb & op_byte(op))
        &&& eq_except_pc_v(pre, post)
        &&& t1 == t0 && s1 == s0 && d1 == d0 && k1 == k0
        &&& res == Ok::<(), VmError>(())
    } else if cls == 0xD {
        let g0 = d0.grid();
        let px = pre.v@[op_x(op)] as int;
        let py = pre.v@[op_y(op)] as int;
        let rows = pre.memory@.subrange(pre.i as int, pre.i + op_n(op));
        &&& post.pc as int == pc2
        &&& d1.grid() == drawn_grid(g0, px, py, rows)
        &&& post.v@ == pre.v@.update(
            15,
            if draw_collides(g0, px, py, rows) {
                1u8
            } else {
                0u8
            },
        )
        &&& eq_except_pc_v(pre, post)
        &&& t1 == t0 && s1 == s0 && k1 == k0
        &&& res == Ok::<(), VmError>(())
    } else if cls == 0xE {
        &&& post.pc as int == pc2 + (
        if op_byte(op) == 0x9E && k0.keys@[pre.v@[op_x(op)] as int] || (op_byte(op) == 0xA1
            && !k0.keys@[pre.v@[op_x(op)] as int]) {
            2int
        } else {
            0int
        })
        &&& eq_except_pc(pre, post)
        &&& t1 == t0 && s1 == s0 && d1 == d0 && k1 == k0
        &&& res == Ok::<(), VmError>(())
    } else {
        let b = op_byte(op);
        let x = op_x(op);
        &&& d1 == d0
        &&& res == Ok::<(), VmError>(())
        &&& if b == 0x07 {
            &&& post.pc as int == pc2
            &&& post.v@ == pre.v@.update(x, t0.value)
            &&& eq_except_pc_v(pre, post)
            &&& t1 == t0 && s1 == s0 && k1 == k0
        } else if b == 0x0A {
            &&& t1 == t0 && s1 == s0
            &&& k1.keys@ == k0.keys@
            &&& eq_except_pc_v(pre, post)
            &&& if k0.polling && k0.last_pressed >= 0 {
                &&& post.pc as int == pc2
                &&& post.v@ == pre.v@.update(x, k0.last_pressed as u8)
                &&& !k1.polling
                &&& k1.last_pressed == -1
            } else {
                &&& post.pc == pre.pc
                &&& post.v@ == pre.v@
                &&& k1.polling
                &&& k1.last_pressed == k0.last_pressed
            }
        } else if b == 0x15 {
            &&& post.pc as int == pc2
            &&& eq_except_pc(pre, post)
            &&& t1.value == pre.v@[x]
            &&& s1 == s0 && k1 == k0
        } else if b == 0x18 {
            &&& post.pc as int == pc2
            &&& eq_except_pc(pre, post)
            &&& s1.value == pre.v@[x]
            &&& t1 == t0 && k1 == k0
        } else if b == 0x1E {
            &&& post.pc as int == pc2
            &&& post.i as int == (pre.i + pre.v@[x]) % 0x10000
            &&& eq_except_pc_i(pre, post)
            &&& t1 == t0 && s1 == s0 && k1 == k0
        } else if b == 0x29 {
            &&& post.pc as int == pc2
            &&& post.i as int == (pre.v@[x] & 0xF) * FONT_SIZE
            &&& eq_except_pc_i(pre, post)
            &&& t1 == t0 && s1 == s0 && k1 == k0
        } else if b == 0x33 {
            let vx = pre.v@[x];
            let base = pre.i as int;
            &&& post.pc as int == pc2
            &&& eq_except_pc_mem(pre, post)
            &&& post.memory@ == pre.memory@.update(base, (vx / 100) as u8).update(
                base + 1,
                ((vx % 100) / 10) as u8,
            ).update(base + 2, (vx % 10) as u8)
            &&& t1 == t0 && s1 == s0 && k1 == k0
        } else if b == 0x55 {
            &&& post.pc as int == pc2
            &&& eq_except_pc_mem(pre, post)
            &&& post.memory@ == stored_regs(pre.memory@, pre.i as int, pre.v@, x)
            &&& t1 == t0 && s1 == s0 && k1 == k0
        } else if b == 0x65 {
            &&& post.pc as int == pc2
            &&& eq_except_pc_v(pre, post)
            &&& post.v@ == loaded_regs(pre.v@, pre.memory@, pre.i as int, x)
            &&& t1 == t0 && s1 == s0 && k1 == k0
        } else {
            &&& post.pc as int == pc2
            &&& eq_except_pc(pre, post)
            &&& t1 == t0 && s1 == s0 && k1 == k0
        }
    }
}

impl VirtualMachine {
    /// The CPU state is well formed: 16 registers, 4096 memory bytes, 16
    /// stack slots, and a stack pointer within [0, 16].
    pub open spec fn wf(self) -> bool {
        &&& self.v@.len() == 16
        &&& self.memory@.len() == MEMORY_SIZE
        &&& self.stack@.len() == 16
        &&& self.sp <= 16
    }

    /// The big-endian instruction word at the program counter.
    pub open spec fn spec_opcode(self) -> u16 {
        ((self.memory@[self.pc as int] as u16) << 8u16) | (self.memory@[self.pc as int + 1] as u16)
    }

    pub fn new() -> (vm: VirtualMachine)
        ensures
            vm.wf(),
            vm.i == 0,
            vm.pc == PROGRAM_START_ADDRESS,
            vm.sp == 0,
            forall|k: int| 0 <= k < 16 ==> vm.v@[k] == 0,
            forall|k: int| 0 <= k < 16 ==> vm.stack@[k] == 0,
            forall|k: int| 0 <= k < 80 ==> vm.memory@[k] == font_seq()[k],
            forall|k: int| 80 <= k < MEMORY_SIZE ==> vm.memory@[k] == 0,
    {
        let mut v: Vec<u8> = Vec::new();
        while v.len() < 16
            invariant
                v@.len() <= 16,
                forall|k: int| 0 <= k < v@.len() ==> v@[k] == 0,
            decreases 16 - v@.len(),
        {
            v.push(0);
        }
        let mut memory: Vec<u8> = Vec::new();
        while memory.len() < MEMORY_SIZE
            invariant
                memory@.len() <= MEMORY_SIZE,
                forall|k: int| 0 <= k < memory@.len() ==> memory@[k] == 0,
            decreases MEMORY_SIZE - memory@.len(),
        {
            memory.push(0);
        }
        let mut stack: Vec<u16> = Vec::new();
        while stack.len() < 16
            invariant
                stack@.len() <= 16,
                forall|k: int| 0 <= k < stack@.len() ==> stack@[k] == 0,
            decreases 16 - stack@.len(),
        {
            stack.push(0);
        }
        let mut vm = VirtualMachine { i: 0, pc: PROGRAM_START_ADDRESS, sp: 0, v, memory, stack };
        vm.reset();
        vm
    }

    /// Clear the control state and reinstall the font table; registers and
    /// the rest of memory are left as they are.
    pub fn reset(&mut self)
        requires
            old(self).wf(),
        ensures
            final(self).wf(),
            final(self).i == 0,
            final(self).sp == 0,
            final(self).pc == PROGRAM_START_ADDRESS,
            final(self).v@ == old(self).v@,
            final(self).stack@ == old(self).stack@,
            forall|k: int| 0 <= k < 80 ==> final(self).memory@[k] == font_seq()[k],
            forall|k: int| 80 <= k < MEMORY_SIZE ==> final(self).memory@[k] == old(self).memory@[k],
    {
        self.i = 0;
        self.sp = 0;
        self.pc = PROGRAM_START_ADDRESS;
        let fonts = font_table();
        let mut k: usize = 0;
        while k < 80
            invariant
                self.wf(),
                fonts@ == font_seq(),
                k <= 80,
                self.i == 0,
                self.sp == 0,
                self.pc == PROGRAM_START_ADDRESS,
                self.v@ == old(self).v@,
                self.stack@ == old(self).stack@,
                forall|j: int| 0 <= j < k ==> self.memory@[j] == font_seq()[j],
                forall|j: int| k <= j < MEMORY_SIZE ==> self.memory@[j] == old(self).memory@[j],
            decreases 80 - k,
        {
            self.memory.set(k, fonts[k]);
            k = k + 1;
        }
    }

    /// Copy a program image into memory at the program start address. An
    /// image larger than the memory left above the reserved region is
    /// rejected and nothing is changed.
    pub fn load_bytes(&mut self, bytes: &Vec<u8>) -> (res: Result<(), VmError>)
        requires
            old(self).wf(),
        ensures
            final(self).wf(),
            bytes@.len() > MEMORY_SIZE - PROGRAM_START_ADDRESS ==> ({
                &&& res == Err::<(), VmError>(VmError::ProgramTooLarge)
                &&& *final(self) == *old(self)
            }),
            bytes@.len() <= MEMORY_SIZE - PROGRAM_START_ADDRESS ==> ({
                &&& res == Ok::<(), VmError>(())
                &&& final(self).memory@ == loaded_mem(old(self).memory@, bytes@)
                &&& final(self).i == old(self).i
                &&& final(self).pc == old(self).pc
                &&& final(self).sp == old(self).sp
                &&& final(self).v@ == old(self).v@
                &&& final(self).stack@ == old(self).stack@
            }),
    {
        if bytes.len() > MEMORY_SIZE - PROGRAM_START_ADDRESS as usize {
            return Err(VmError::ProgramTooLarge);
        }
        let mut idx: usize = 0;
        while idx < bytes.len()
            invariant
                self.wf(),
                idx <= bytes@.len(),
                bytes@.len() <= MEMORY_SIZE - PROGRAM_START_ADDRESS,
                self.i == old(self).i,
                self.pc == old(self).pc,
                self.sp == old(self).sp,
                self.v@ == old(self).v@,
                self.stack@ == old(self).stack@,
                forall|j: int|
                    PROGRAM_START_ADDRESS <= j < PROGRAM_START_ADDRESS + idx ==> self.memory@[j]
                        == bytes@[j - PROGRAM_START_ADDRESS],
                forall|j: int|
                    0 <= j < MEMORY_SIZE && !(PROGRAM_START_ADDRESS <= j < PROGRAM_START_ADDRESS
                        + idx) ==> self.memory@[j] == old(self).memory@[j],
            decreases bytes@.len() - idx,
        {
            self.memory.set(PROGRAM_START_ADDRESS as usize + idx, bytes[idx]);
            idx = idx + 1;
        }
        assert(self.memory@ =~= loaded_mem(old(self).memory@, bytes@));
        Ok(())
    }

    /// Fetch the big-endian instruction word at the program counter and
    /// advance the counter past it.
    fn fetch_opcode(&mut self) -> (op: u16)
        requires
            old(self).wf(),
            old(self).pc + 1 < MEMORY_SIZE,
        ensures
            final(self).wf(),
            eq_except_pc(*old(self), *final(self)),
            final(self).pc as int == old(self).pc + 2,
            op == old(self).spec_opcode(),
    {
        let byte_hi = self.memory[self.pc as usize] as u16;
        let byte_lo = self.memory[(self.pc + 1) as usize] as u16;
        self.pc = self.pc + 2;
        (byte_hi << 8u16) | byte_lo
    }

    /// System class: clear screen, return, and no-op fillers.
    fn exec_opcode_0x0(&mut self, opcode: u16, display: &mut Display) -> (res: Result<
        (),
        VmError,
    >)
        requires
            old(self).wf(),
            old(display).wf(),
        ensures
            final(self).wf(),
            final(display).wf(),
            opcode == 0x00E0 ==> ({
                &&& *final(self) == *old(self)
                &&& final(display).grid() == blank_grid()
                &&& res == Ok::<(), VmError>(())
            }),
            opcode == 0x00EE && old(self).sp == 0 ==> ({
                &&& *final(self) == *old(self)
                &&& *final(display) == *old(display)
                &&& res == Err::<(), VmError>(VmError::EmptyCallStack)
            }),
            opcode == 0x00EE && old(self).sp > 0 ==> ({
                &&& final(self).pc == old(self).stack@[old(self).sp - 1]
                &&& final(self).sp == old(self).sp - 1
                &&& eq_except_flow(*old(self), *final(self))
                &&& final(self).stack@ == old(self).stack@
                &&& *final(display) == *old(display)
                &&& res == Ok::<(), VmError>(())
            }),
            opcode != 0x00E0 && opcode != 0x00EE ==> ({
                &&& *final(self) == *old(self)
                &&& *final(display) == *old(display)
                &&& res == Ok::<(), VmError>(())
            }),
    {
        if opcode == 0x00E0 {
            display.clear();
        } else if opcode == 0x00EE {
            if self.sp == 0 {
                return Err(VmError::EmptyCallStack);
            }
            self.sp = self.sp - 1;
            self.pc = self.stack[self.sp as usize];
        }
        Ok(())
    }

    /// Jump to the low 12-bit address.
    fn exec_opcode_0x1(&mut self, opcode: u16) -> (res: Result<(), VmError>)
        requires
            old(self).wf(),
        ensures
            final(self).wf(),
            final(self).pc == op_addr(opcode),
            eq_except_pc(*old(self), *final(self)),
            res == Ok::<(), VmError>(()),
    {
        self.pc = decode_addr(opcode);
        Ok(())
    }

    /// Call: push the counter and jump, unless all stack slots are in use.
    fn exec_opcode_0x2(&mut self, opcode: u16) -> (res: Result<(), VmError>)
        requires
            old(self).wf(),
        ensures
            final(self).wf(),
            old(self).sp >= 16 ==> ({
                &&& *final(self) == *old(self)
                &&& res == Err::<(), VmError>(VmError::CallStackOverflow)
            }),
            old(self).sp < 16 ==> ({
                &&& final(self).pc == op_addr(opcode)
                &&& final(self).sp == old(self).sp + 1
                &&& final(self).stack@ == old(self).stack@.update(
                    old(self).sp as int,
                    old(self).pc,
                )
                &&& eq_except_flow(*old(self), *final(self))
                &&& res == Ok::<(), VmError>(())
            }),
    {
        if self.sp > 0xF {
            Err(VmError::CallStackOverflow)
        } else {
            self.stack.set(self.sp as usize, self.pc);
            self.sp = self.sp + 1;
            self.pc = decode_addr(opcode);
            Ok(())
        }
    }

    /// Skip the next instruction when the x register equals the low byte.
    fn exec_opcode_0x3(&mut self, opcode: u16) -> (res: Result<(), VmError>)
        requires
            old(self).wf(),
            old(self).pc <= MEMORY_SIZE,
        ensures
            final(self).wf(),
            eq_except_pc(*old(self), *final(self)),
            final(self).pc as int == old(self).pc + (
            if old(self).v@[op_x(opcode)] == op_byte(opcode) {
                2int
            } else {
                0int
            }),
            res == Ok::<(), VmError>(()),
    {
        if self.v[decode_x(opcode)] == decode_byte(opcode) {
            self.pc = self.pc + 2;
        }
        Ok(())
    }

    /// Skip the next instruction when the x register differs from the low byte.
    fn exec_opcode_0x4(&mut self, opcode: u16) -> (res: Result<(), VmError>)
        requires
            old(self).wf(),
            old(self).pc <= MEMORY_SIZE,
        ensures
            final(self).wf(),
            eq_except_pc(*old(self), *final(self)),
            final(self).pc as int == old(self).pc + (
            if old(self).v@[op_x(opcode)] != op_byte(opcode) {
                2int
            } else {
                0int
            }),
            res == Ok::<(), VmError>(()),
    {
        if self.v[decode_x(opcode)] != decode_byte(opcode) {
            self.pc = self.pc + 2;
        }
        Ok(())
    }

    /// Skip when the x and y registers are equal; only the form with a
    /// trailing zero nibble compares.
    fn exec_opcode_0x5(&mut self, opcode: u16) -> (res: Result<(), VmError>)
        requires
            old(self).wf(),
            old(self).pc <= MEMORY_SIZE,
        ensures
            final(self).wf(),
            eq_except_pc(*old(self), *final(self)),
            final(self).pc as int == old(self).pc + (
            if op_n(opcode) == 0 && old(self).v@[op_x(opcode)] == old(self).v@[op_y(opcode)] {
                2int
            } else {
                0int
            }),
            res == Ok::<(), VmError>(()),
    {
        if decode_nibb(opcode) == 0 && self.v[decode_x(opcode)] == self.v[decode_y(opcode)] {
            self.pc = self.pc + 2;
        }
        Ok(())
    }

    /// Load the low byte into the x register.
    fn exec_opcode_0x6(&mut self, opcode: u16) -> (res: Result<(), VmError>)
        requires
            old(self).wf(),
        ensures
            final(self).wf(),
            final(self).pc == old(self).pc,
            eq_except_pc_v(*old(self), *final(self)),
            final(self).v@ == old(self).v@.update(op_x(opcode), op_byte(opcode)),
            res == Ok::<(), VmError>(()),
    {
        self.v.set(decode_x(opcode), decode_byte(opcode));
        Ok(())
    }

    /// Add the low byte into the x register, wrapping on 8-bit overflow and
    /// leaving the flag register alone.
    fn exec_opcode_0x7(&mut self, opcode: u16) -> (res: Result<(), VmError>)
        requires
            old(self).wf(),
        ensures
            final(self).wf(),
            final(self).pc == old(self).pc,
            eq_except_pc_v(*old(self), *final(self)),
            final(self).v@ == old(self).v@.update(
                op_x(opcode),
                ((old(self).v@[op_x(opcode)] + op_byte(opcode)) % 256) as u8,
            ),
            res == Ok::<(), VmError>(()),
    {
        let x = decode_x(opcode);
        let sum: u16 = self.v[x] as u16 + decode_byte(opcode) as u16;
        self.v.set(x, (sum % 256) as u8);
        Ok(())
    }

    /// Register-register arithmetic and logic group.
    fn exec_opcode_0x8(&mut self, opcode: u16) -> (res: Result<(), VmError>)
        requires
            old(self).wf(),
        ensures
            final(self).wf(),
            final(self).pc == old(self).pc,
            eq_except_pc_v(*old(self), *final(self)),
            final(self).v@ == alu_v(old(self).v@, op_x(opcode), op_y(opcode), op_n(opcode)),
            res == Ok::<(), VmError>(()),
    {
        let x = decode_x(opcode);
        let y = decode_y(opcode);

        match decode_nibb(opcode) {
            0x0 => {
                let vy = self.v[y];
                self.v.set(x, vy);
            },
            0x1 => {
                let r = self.v[x] | self.v[y];
                self.v.set(x, r);
            },
            0x2 => {
                let r = self.v[x] & self.v[y];
                self.v.set(x, r);
            },
            0x3 => {
                let r = self.v[x] ^ self.v[y];
                self.v.set(x, r);
            },
            0x4 => {
                let sum: u16 = self.v[x] as u16 + self.v[y] as u16;
                let carry: u8 = if sum > 255 {
                    1
                } else {
                    0
                };
                self.v.set(15, carry);
                self.v.set(x, (sum % 256) as u8);
            },
            0x5 => {
                let a = self.v[x];
                let b = self.v[y];
                let flag: u8 = if a >= b {
                    1
                } else {
                    0
                };
                let r: u8 = if a >= b {
                    a - b
                } else {
                    (a as u16 + 256 - b as u16) as u8
                };
                assert(r as int == (a - b) % 256);
                self.v.set(15, flag);
                self.v.set(x, r);
            },
            0x6 => {
                let a = self.v[x];
                assert(a & 1 == a % 2) by (bit_vector);
                self.v.set(15, a & 1);
                let cur = self.v[x];
                assert(cur >> 1u8 == cur / 2) by (bit_vector);
                self.v.set(x, cur >> 1u8);
            },
            0x7 => {
                let a = self.v[y];
                let b = self.v[x];
                let flag: u8 = if a >= b {
                    1
                } else {
                    0
                };
                let r: u8 = if a >= b {
                    a - b
                } else {
                    (a as u16 + 256 - b as u16) as u8
                };
                assert(r as int == (a - b) % 256);
                self.v.set(15, flag);
                self.v.set(x, r);
            },
            0xE => {
                let a = self.v[x];
                assert(a >> 7u8 == a / 128) by (bit_vector);
                self.v.set(15, a >> 7u8);
                let cur = self.v[x];
                assert(cur << 1u8 == (cur * 2) % 256) by (bit_vector);
                self.v.set(x, cur << 1u8);
            },
            _ => {},
        }
        Ok(())
    }

    /// Skip when the x and y registers differ; only the form with a trailing
    /// zero nibble compares.
    fn exec_opcode_0x9(&mut self, opcode: u16) -> (res: Result<(), VmError>)
        requires
            old(self).wf(),
            old(self).pc <= MEMORY_SIZE,
        ensures
            final(self).wf(),
            eq_except_pc(*old(self), *final(self)),
            final(self).pc as int == old(self).pc + (
            if op_n(opcode) == 0 && old(self).v@[op_x(opcode)] != old(self).v@[op_y(opcode)] {
                2int
            } else {
                0int
            }),
            res == Ok::<(), VmError>(()),
    {
        if decode_nibb(opcode) == 0 && self.v[decode_x(opcode)] != self.v[decode_y(opcode)] {
            self.pc = self.pc + 2;
        }
        Ok(())
    }

    /// Load the low 12-bit address into the index register.
    #[allow(non_snake_case)]
    fn exec_opcode_0xA(&mut self, opcode: u16) -> (res: Result<(), VmError>)
        requires
            old(self).wf(),
        ensures
            final(self).wf(),
            final(self).pc == old(self).pc,
            final(self).i == op_addr(opcode),
            eq_except_pc_i(*old(self), *final(self)),
            res == Ok::<(), VmError>(()),
    {
        self.i = decode_addr(opcode);
        Ok(())
    }

    /// Jump to the low 12-bit address plus register 0, wrapping on 16 bits.
    #[allow(non_snake_case)]
    fn exec_opcode_0xB(&mut self, opcode: u16) -> (res: Result<(), VmError>)
        requires
            old(self).wf(),
        ensures
            final(self).wf(),
            eq_except_pc(*old(self), *final(self)),
            final(self).pc as int == (op_addr(opcode) + old(self).v@[0]) % 0x10000,
            res == Ok::<(), VmError>(()),
    {
        let sum: u32 = decode_addr(opcode) as u32 + self.v[0] as u32;
        self.pc = (sum % 0x10000) as u16;
        Ok(())
    }

    /// Load a uniformly random byte masked by the low byte into the x
    /// register.
    #[allow(non_snake_case)]
    fn exec_opcode_0xC(&mut self, opcode: u16) -> (res: Result<(), VmError>)
        requires
            old(self).wf(),
        ensures
            final(self).wf(),
            final(self).pc == old(self).pc,
            eq_except_pc_v(*old(self), *final(self)),
            exists|rb: u8|
                final(self).v@ == old(self).v@.update(op_x(opcode), rb & op_byte(opcode)),
            res == Ok::<(), VmError>(()),
    {
        let x = decode_x(opcode);
        let r = random_byte();
        let masked = r & decode_byte(opcode);
        self.v.set(x, masked);
        proof {
            assert(self.v@ == old(self).v@.update(op_x(opcode), r & op_byte(opcode)));
        }
        Ok(())
    }

    /// Skip on the pressed state of the key named by the x register.
    #[allow(non_snake_case)]
    fn exec_opcode_0xE(&mut self, opcode: u16, keyboard: &Keyboard) -> (res: Result<
        (),
        VmError,
    >)
        requires
            old(self).wf(),
            keyboard.wf(),
            old(self).pc <= MEMORY_SIZE,
            (op_byte(opcode) == 0x9E || op_byte(opcode) == 0xA1) ==> old(self).v@[op_x(opcode)]
                < 16,
        ensures
            final(self).wf(),
            eq_except_pc(*old(self), *final(self)),
            final(self).pc as int == old(self).pc + (
            if op_byte(opcode) == 0x9E && keyboard.keys@[old(self).v@[op_x(opcode)] as int] || (
            op_byte(opcode) == 0xA1 && !keyboard.keys@[old(self).v@[op_x(opcode)] as int]) {
                2int
            } else {
                0int
            }),
            res == Ok::<(), VmError>(()),
    {
        let x = decode_x(opcode);
        match decode_byte(opcode) {
            0x9E => {
                if keyboard.is_pressed(self.v[x]) {
                    self.pc = self.pc + 2;
                }
            },
            0xA1 => {
                if !keyboard.is_pressed(self.v[x]) {
                    self.pc = self.pc + 2;
                }
            },
            _ => {},
        }
        Ok(())
    }

    /// Draw an `8 x n` sprite read from memory at the index register, at the
    /// wrapped coordinates held in the x and y registers; the flag register
    /// reports whether any toggle collided with a lit pixel.
    #[allow(non_snake_case)]
    #[verifier::loop_isolation(false)]
    fn exec_opcode_0xD(&mut self, opcode: u16, display: &mut Display) -> (res: Result<
        (),
        VmError,
    >)
        requires
            old(self).wf(),
            old(display).wf(),
            old(self).i + op_n(opcode) <= MEMORY_SIZE,
        ensures
            final(self).wf(),
            final(display).wf(),
            final(self).pc == old(self).pc,
            eq_except_pc_v(*old(self), *final(self)),
            res == Ok::<(), VmError>(()),
            ({
                let g0 = old(display).grid();
                let px = old(self).v@[op_x(opcode)] as int;
                let py = old(self).v@[op_y(opcode)] as int;
                let rows = old(self).memory@.subrange(
                    old(self).i as int,
                    old(self).i + op_n(opcode),
                );
                &&& final(display).grid() == drawn_grid(g0, px, py, rows)
                &&& final(self).v@ == old(self).v@.update(
                    15,
                    if draw_collides(g0, px, py, rows) {
                        1u8
                    } else {
                        0u8
                    },
                )
            }),
    {
        let x = self.v[decode_x(opcode)] as usize;
        let y = self.v[decode_y(opcode)] as usize;
        let n = decode_nibb(opcode);
        let ghost xi = x as int;
        let ghost yi = y as int;
        let ghost g0 = display.grid();
        let ghost rows = self.memory@.subrange(self.i as int, self.i as int + n as int);

        let mut flag = false;
        let mut row: usize = 0;
        proof {
            assert(drawn_grid_upto(g0, xi, yi, rows, 0, 0) =~= g0);
        }
        while row < n
            invariant
                display.wf(),
                row <= n,
                display.grid() == drawn_grid_upto(g0, xi, yi, rows, row as int, 0),
                flag == collides_upto(g0, xi, yi, rows, row as int, 0),
            decreases n - row,
        {
            let byte = self.memory[self.i as usize + row];
            let mut col: usize = 0;
            while col < 8
                invariant
                    display.wf(),
                    col <= 8,
                    row < n,
                    byte == rows[row as int],
                    display.grid() == drawn_grid_upto(g0, xi, yi, rows, row as int, col as int),
                    flag == collides_upto(g0, xi, yi, rows, row as int, col as int),
                decreases 8 - col,
            {
                let value = ((byte >> ((7 - col) as u8)) & 1) == 1;
                let ghost gprev = display.grid();
                let collided = display.set(x + col, y + row, value);
                if collided {
                    flag = true;
                }
                proof {
                    let ri = row as int;
                    let ci = col as int;
                    let pix = pixel_index(xi + ci, yi + ri);
                    crate::display::lemma_pixel_index_bounds(xi + ci, yi + ri);
                    lemma_coords_of_index(xi, yi, ci, ri);
                    assert(!covered_upto(xi, yi, ri, ci, pix));
                    assert(gprev[pix] == g0[pix]);
                    assert(value == sprite_row_bit(rows[ri], ci));
                    assert forall|q: int| 0 <= q < g0.len() implies display.grid()[q]
                        == drawn_grid_upto(g0, xi, yi, rows, ri, ci + 1)[q] by {
                        if q != pix {
                            lemma_index_of_coords(xi, yi, q);
                            assert(covered_upto(xi, yi, ri, ci + 1, q) == covered_upto(
                                xi,
                                yi,
                                ri,
                                ci,
                                q,
                            ));
                        }
                    }
                    assert(display.grid() =~= drawn_grid_upto(g0, xi, yi, rows, ri, ci + 1));
                    if collided {
                        assert(sprite_row_bit(rows[ri], ci) && g0[pixel_index(xi + ci, yi + ri)]);
                        assert(collides_upto(g0, xi, yi, rows, ri, ci + 1));
                    } else {
                        if collides_upto(g0, xi, yi, rows, ri, ci + 1) {
                            let (r2, c2) = choose|r2: int, c2: int|
                                0 <= r2 && 0 <= c2 < 8 && (r2 < ri || (r2 == ri && c2 < ci + 1))
                                    && sprite_row_bit(rows[r2], c2) && g0[pixel_index(
                                    xi + c2,
                                    yi + r2,
                                )];
                            if r2 == ri && c2 == ci {
                                assert(false);
                            } else {
                                assert(collides_upto(g0, xi, yi, rows, ri, ci));
                            }
                        }
                        assert(collides_upto(g0, xi, yi, rows, ri, ci + 1) == collides_upto(
                            g0,
                            xi,
                            yi,
                            rows,
                            ri,
                            ci,
                        ));
                    }
                }
                col = col + 1;
            }
            proof {
                let ri = row as int;
                assert(drawn_grid_upto(g0, xi, yi, rows, ri, 8) =~= drawn_grid_upto(
                    g0,
                    xi,
                    yi,
                    rows,
                    ri + 1,
                    0,
                ));
                if collides_upto(g0, xi, yi, rows, ri, 8) {
                    let (r2, c2) = choose|r2: int, c2: int|
                        0 <= r2 && 0 <= c2 < 8 && (r2 < ri || (r2 == ri && c2 < 8))
                            && sprite_row_bit(rows[r2], c2) && g0[pixel_index(xi + c2, yi + r2)];
                    assert(r2 < ri + 1);
                    assert(collides_upto(g0, xi, yi, rows, ri + 1, 0));
                }
                if collides_upto(g0, xi, yi, rows, ri + 1, 0) {
                    let (r2, c2) = choose|r2: int, c2: int|
                        0 <= r2 && 0 <= c2 < 8 && (r2 < ri + 1 || (r2 == ri + 1 && c2 < 0))
                            && sprite_row_bit(rows[r2], c2) && g0[pixel_index(xi + c2, yi + r2)];
                    assert(collides_upto(g0, xi, yi, rows, ri, 8));
                }
            }
            row = row + 1;
        }
        let f: u8 = if flag {
            1
        } else {
            0
        };
        self.v.set(15, f);
        Ok(())
    }

    /// Miscellaneous class: timer and sound transfers, the blocking key
    /// read, index arithmetic, font addressing, decimal store, and register
    /// block transfers.
    ///
    /// The decimal store writes the standard decomposition: hundreds, tens
    /// (`(value % 100) / 10`) and ones. Some published interpreters compute
    /// the middle digit as `(value % 100) / 100`, which is zero for every
    /// input; that formula is deliberately not used here.
    #[allow(non_snake_case)]
    #[verifier::loop_isolation(false)]
    fn exec_opcode_0xF(
        &mut self,
        opcode: u16,
        timer: &mut Timer,
        sound: &mut Sound,
        keyboard: &mut Keyboard,
    ) -> (res: Result<(), VmError>)
        requires
            old(self).wf(),
            old(keyboard).wf(),
            old(self).pc >= 2,
            op_byte(opcode) == 0x33 ==> old(self).i + 2 < MEMORY_SIZE,
            (op_byte(opcode) == 0x55 || op_byte(opcode) == 0x65) ==> old(self).i + op_x(opcode)
                < MEMORY_SIZE,
        ensures
            final(self).wf(),
            final(keyboard).wf(),
            res == Ok::<(), VmError>(()),
            op_byte(opcode) == 0x07 ==> ({
                &&& final(self).pc == old(self).pc
                &&& eq_except_pc_v(*old(self), *final(self))
                &&& final(self).v@ == old(self).v@.update(op_x(opcode), old(timer).value)
                &&& *final(timer) == *old(timer)
                &&& *final(sound) == *old(sound)
                &&& *final(keyboard) == *old(keyboard)
            }),
            op_byte(opcode) == 0x0A ==> ({
                &&& *final(timer) == *old(timer)
                &&& *final(sound) == *old(sound)
                &&& final(keyboard).keys@ == old(keyboard).keys@
                &&& eq_except_pc_v(*old(self), *final(self))
                &&& if old(keyboard).polling && old(keyboard).last_pressed >= 0 {
                    &&& final(self).pc == old(self).pc
                    &&& final(self).v@ == old(self).v@.update(
                        op_x(opcode),
                        old(keyboard).last_pressed as u8,
                    )
                    &&& !final(keyboard).polling
                    &&& final(keyboard).last_pressed == -1
                } else {
                    &&& final(self).pc as int == old(self).pc - 2
                    &&& final(self).v@ == old(self).v@
                    &&& final(keyboard).polling
                    &&& final(keyboard).last_pressed == old(keyboard).last_pressed
                }
            }),
            op_byte(opcode) == 0x15 ==> ({
                &&& *final(self) == *old(self)
                &&& final(timer).value == old(self).v@[op_x(opcode)]
                &&& *final(sound) == *old(sound)
                &&& *final(keyboard) == *old(keyboard)
            }),
            op_byte(opcode) == 0x18 ==> ({
                &&& *final(self) == *old(self)
                &&& final(sound).value == old(self).v@[op_x(opcode)]
                &&& *final(timer) == *old(timer)
                &&& *final(keyboard) == *old(keyboard)
            }),
            op_byte(opcode) == 0x1E ==> ({
                &&& final(self).pc == old(self).pc
                &&& final(self).i as int == (old(self).i + old(self).v@[op_x(opcode)]) % 0x10000
                &&& eq_except_pc_i(*old(self), *final(self))
                &&& *final(timer) == *old(timer)
                &&& *final(sound) == *old(sound)
                &&& *final(keyboard) == *old(keyboard)
            }),
            op_byte(opcode) == 0x29 ==> ({
                &&& final(self).pc == old(self).pc
                &&& final(self).i as int == (old(self).v@[op_x(opcode)] & 0xF) * FONT_SIZE
                &&& eq_except_pc_i(*old(self), *final(self))
                &&& *final(timer) == *old(timer)
                &&& *final(sound) == *old(sound)
                &&& *final(keyboard) == *old(keyboard)
            }),
            op_byte(opcode) == 0x33 ==> ({
                let vx = old(self).v@[op_x(opcode)];
                let base = old(self).i as int;
                &&& final(self).pc == old(self).pc
                &&& eq_except_pc_mem(*old(self), *final(self))
                &&& final(self).memory@ == old(self).memory@.update(base, (vx / 100) as u8).update(
                    base + 1,
                    ((vx % 100) / 10) as u8,
                ).update(base + 2, (vx % 10) as u8)
                &&& *final(timer) == *old(timer)
                &&& *final(sound) == *old(sound)
                &&& *final(keyboard) == *old(keyboard)
            }),
            op_byte(opcode) == 0x55 ==> ({
                &&& final(self).pc == old(self).pc
                &&& eq_except_pc_mem(*old(self), *final(self))
                &&& final(self).memory@ == stored_regs(
                    old(self).memory@,
                    old(self).i as int,
                    old(self).v@,
                    op_x(opcode),
                )
                &&& *final(timer) == *old(timer)
                &&& *final(sound) == *old(sound)
                &&& *final(keyboard) == *old(keyboard)
            }),
            op_byte(opcode) == 0x65 ==> ({
                &&& final(self).pc == old(self).pc
                &&& eq_except_pc_v(*old(self), *final(self))
                &&& final(self).v@ == loaded_regs(
                    old(self).v@,
                    old(self).memory@,
                    old(self).i as int,
                    op_x(opcode),
                )
                &&& *final(timer) == *old(timer)
                &&& *final(sound) == *old(sound)
                &&& *final(keyboard) == *old(keyboard)
            }),
            !(op_byte(opcode) == 0x07 || op_byte(opcode) == 0x0A || op_byte(opcode) == 0x15
                || op_byte(opcode) == 0x18 || op_byte(opcode) == 0x1E || op_byte(opcode) == 0x29
                || op_byte(opcode) == 0x33 || op_byte(opcode) == 0x55 || op_byte(opcode)
                == 0x65) ==> ({
                &&& *final(self) == *old(self)
                &&& *final(timer) == *old(timer)
                &&& *final(sound) == *old(sound)
                &&& *final(keyboard) == *old(keyboard)
            }),
    {
        let x = decode_x(opcode);

        match decode_byte(opcode) {
            0x07 => {
                let t = timer.read();
                self.v.set(x, t);
            },
            0x0A => {
                let (key, polled) = keyboard.poll();
                if polled {
                    self.v.set(x, key);
                } else {
                    self.pc = self.pc - 2;
                }
            },
            0x15 => {
                let vx = self.v[x];
                timer.write(vx);
            },
            0x18 => {
                let vx = self.v[x];
                sound.write(vx);
            },
            0x1E => {
                let sum: u32 = self.i as u32 + self.v[x] as u32;
                self.i = (sum % 0x10000) as u16;
            },
            0x29 => {
                self.i = ((self.v[x] & 0x0F) as u16) * FONT_SIZE;
            },
            0x33 => {
                let vx = self.v[x];
                let base = self.i as usize;
                self.memory.set(base, vx / 100);
                self.memory.set(base + 1, (vx % 100) / 10);
                self.memory.set(base + 2, vx % 10);
            },
            0x55 => {
                let base = self.i as usize;
                let mut k: usize = 0;
                while k <= x
                    invariant
                        self.wf(),
                        k <= x + 1,
                        self.i == old(self).i,
                        self.pc == old(self).pc,
                        self.sp == old(self).sp,
                        self.v@ == old(self).v@,
                        self.stack@ == old(self).stack@,
                        forall|j: int|
                            base <= j < base + k ==> self.memory@[j] == old(self).v@[j - base],
                        forall|j: int|
                            0 <= j < MEMORY_SIZE && !(base <= j < base + k) ==> self.memory@[j]
                                == old(self).memory@[j],
                    decreases x + 1 - k,
                {
                    let vk = self.v[k];
                    self.memory.set(base + k, vk);
                    k = k + 1;
                }
                assert(self.memory@ =~= stored_regs(
                    old(self).memory@,
                    old(self).i as int,
                    old(self).v@,
                    op_x(opcode),
                ));
            },
            0x65 => {
                let base = self.i as usize;
                let mut k: usize = 0;
                while k <= x
                    invariant
                        self.wf(),
                        k <= x + 1,
                        self.i == old(self).i,
                        self.pc == old(self).pc,
                        self.sp == old(self).sp,
                        self.memory@ == old(self).memory@,
                        self.stack@ == old(self).stack@,
                        forall|j: int| 0 <= j < k ==> self.v@[j] == old(self).memory@[base + j],
                        forall|j: int| k <= j < 16 ==> self.v@[j] == old(self).v@[j],
                    decreases x + 1 - k,
                {
                    let mk = self.memory[base + k];
                    self.v.set(k, mk);
                    k = k + 1;
                }
                assert(self.v@ =~= loaded_regs(
                    old(self).v@,
                    old(self).memory@,
                    old(self).i as int,
                    op_x(opcode),
                ));
            },
            _ => {},
        }
        Ok(())
    }

    /// The data-dependent memory bounds that the instruction about to be
    /// executed needs; steps outside them would address memory out of
    /// bounds.
    pub open spec fn step_bounds(self) -> bool {
        let op = self.spec_opcode();
        &&& op_class(op) == 0xD ==> self.i + op_n(op) <= MEMORY_SIZE
        &&& (op_class(op) == 0xE && (op_byte(op) == 0x9E || op_byte(op) == 0xA1))
            ==> self.v@[op_x(op)] < 16
        &&& (op_class(op) == 0xF && op_byte(op) == 0x33) ==> self.i + 2 < MEMORY_SIZE
        &&& (op_class(op) == 0xF && (op_byte(op) == 0x55 || op_byte(op) == 0x65)) ==> self.i
            + op_x(op) < MEMORY_SIZE
    }

    /// A step may be taken: the state is well formed, the counter addresses
    /// a byte pair inside memory, and the fetched instruction stays in
    /// bounds.
    pub open spec fn can_step(self) -> bool {
        &&& self.wf()
        &&& self.pc + 1 < MEMORY_SIZE
        &&& self.step_bounds()
    }

    /// One fetch-decode-execute step: fetch the word at the counter, advance
    /// the counter by 2, and execute the instruction against the CPU state
    /// and the peripherals. A failing step reports its error and leaves the
    /// rest of the state exactly as the transition relation says; the driver
    /// is expected to log it and carry on.
    pub fn step(
        &mut self,
        timer: &mut Timer,
        sound: &mut Sound,
        display: &mut Display,
        keyboard: &mut Keyboard,
    ) -> (res: Result<(), VmError>)
        requires
            old(self).can_step(),
            old(display).wf(),
            old(keyboard).wf(),
        ensures
            final(self).wf(),
            final(display).wf(),
            final(keyboard).wf(),
            step_rel(
                *old(self),
                *final(self),
                *old(timer),
                *final(timer),
                *old(sound),
                *final(sound),
                *old(display),
                *final(display),
                *old(keyboard),
                *final(keyboard),
                res,
            ),
    {
        let opcode = self.fetch_opcode();
        proof {
            assert(opcode >> 12u16 < 16) by (bit_vector);
        }
        match opcode >> 12u16 {
            0x0 => self.exec_opcode_0x0(opcode, display),
            0x1 => self.exec_opcode_0x1(opcode),
            0x2 => self.exec_opcode_0x2(opcode),
            0x3 => self.exec_opcode_0x3(opcode),
            0x4 => self.exec_opcode_0x4(opcode),
            0x5 => self.exec_opcode_0x5(opcode),
            0x6 => self.exec_opcode_0x6(opcode),
            0x7 => self.exec_opcode_0x7(opcode),
            0x8 => self.exec_opcode_0x8(opcode),
            0x9 => self.exec_opcode_0x9(opcode),
            0xA => self.exec_opcode_0xA(opcode),
            0xB => self.exec_opcode_0xB(opcode),
            0xC => self.exec_opcode_0xC(opcode),
            0xD => self.exec_opcode_0xD(opcode, display),
            0xE => self.exec_opcode_0xE(opcode, keyboard),
            _ => self.exec_opcode_0xF(opcode, timer, sound, keyboard),
        }
    }
}

/// Drawing the same sprite twice at the same coordinates restores every
/// pixel to its original state: the XOR toggle is an involution.
pub proof fn lemma_draw_twice_restores(g: Seq<bool>, x: int, y: int, rows: Seq<u8>)
    ensures
        drawn_grid(drawn_grid(g, x, y, rows), x, y, rows) == g,
{
    let g1 = drawn_grid(g, x, y, rows);
    let g2 = drawn_grid(g1, x, y, rows);
    assert forall|p: int| 0 <= p < g.len() implies g2[p] == g[p] by {
        assert(g1.len() == g.len());
    }
    assert(g2 =~= g);
}

/// Pixel addressing wraps: drawing a sprite with its origin shifted by one
/// whole display width and height is the same draw, with the same collision
/// report. In particular a draw at (64, 32) is a draw at (0, 0).
pub proof fn lemma_draw_wraps(g: Seq<bool>, x: int, y: int, rows: Seq<u8>)
    ensures
        drawn_grid(g, x + DISPLAY_WIDTH, y + DISPLAY_HEIGHT, rows) == drawn_grid(g, x, y, rows),
        draw_collides(g, x + DISPLAY_WIDTH, y + DISPLAY_HEIGHT, rows) == draw_collides(
            g,
            x,
            y,
            rows,
        ),
{
    let w = DISPLAY_WIDTH as int;
    let h = DISPLAY_HEIGHT as int;
    assert forall|i: int| sprite_col(x + w, i) == sprite_col(x, i) by {
        vstd::arithmetic::div_mod::lemma_mod_sub_multiples_vanish(i % w - x, w);
    }
    assert forall|i: int| sprite_row(y + h, i) == sprite_row(y, i) by {
        vstd::arithmetic::div_mod::lemma_mod_sub_multiples_vanish(i / w - y, h);
    }
    assert forall|c: int, r: int|
        #[trigger] pixel_index(x + w + c, y + h + r) == pixel_index(x + c, y + r) by {
        vstd::arithmetic::div_mod::lemma_mod_add_multiples_vanish(x + c, w);
        vstd::arithmetic::div_mod::lemma_mod_add_multiples_vanish(y + r, h);
    }
    assert(drawn_grid(g, x + w, y + h, rows) =~= drawn_grid(g, x, y, rows));
    if draw_collides(g, x, y, rows) {
        let (r, c) = choose|r: int, c: int|
            0 <= r && 0 <= c < 8 && r < rows.len() && sprite_row_bit(rows[r], c) && g[pixel_index(
                x + c,
                y + r,
            )];
        assert(g[pixel_index(x + w + c, y + h + r)]);
        assert(draw_collides(g, x + w, y + h, rows));
    }
    if draw_collides(g, x + w, y + h, rows) {
        let (r, c) = choose|r: int, c: int|
            0 <= r && 0 <= c < 8 && r < rows.len() && sprite_row_bit(rows[r], c) && g[pixel_index(
                x + w + c,
                y + h + r,
            )];
        assert(g[pixel_index(x + c, y + r)]);
        assert(draw_collides(g, x, y, rows));
    }
}

/// Drawing over an all-clear framebuffer never collides; drawing the same
/// sprite a second time collides exactly when the sprite has any lit bit,
/// and turns every pixel it covers back off.
pub proof fn lemma_draw_twice_from_clear(x: int, y: int, rows: Seq<u8>)
    requires
        rows.len() <= DISPLAY_HEIGHT,
    ensures
        !draw_collides(blank_grid(), x, y, rows),
        draw_collides(drawn_grid(blank_grid(), x, y, rows), x, y, rows) == (exists|r: int, c: int|
            0 <= r < rows.len() && 0 <= c < 8 && sprite_row_bit(rows[r], c)),
        drawn_grid(drawn_grid(blank_grid(), x, y, rows), x, y, rows) == blank_grid(),
{
    let g0 = blank_grid();
    if draw_collides(g0, x, y, rows) {
        let (r, c) = choose|r: int, c: int|
            0 <= r && 0 <= c < 8 && r < rows.len() && sprite_row_bit(rows[r], c) && g0[pixel_index(
                x + c,
                y + r,
            )];
        crate::display::lemma_pixel_index_bounds(x + c, y + r);
        assert(false);
    }
    let g1 = drawn_grid(g0, x, y, rows);
    if draw_collides(g1, x, y, rows) {
        let (r, c) = choose|r: int, c: int|
            0 <= r && 0 <= c < 8 && r < rows.len() && sprite_row_bit(rows[r], c) && g1[pixel_index(
                x + c,
                y + r,
            )];
        assert(0 <= r < rows.len() && 0 <= c < 8 && sprite_row_bit(rows[r], c));
    }
    if exists|r: int, c: int| 0 <= r < rows.len() && 0 <= c < 8 && sprite_row_bit(rows[r], c) {
        let (r, c) = choose|r: int, c: int|
            0 <= r < rows.len() && 0 <= c < 8 && sprite_row_bit(rows[r], c);
        let pix = pixel_index(x + c, y + r);
        crate::display::lemma_pixel_index_bounds(x + c, y + r);
        lemma_coords_of_index(x, y, c, r);
        assert(covered_upto(x, y, rows.len() as int, 0, pix));
        assert(g1[pix] == (g0[pix] != sprite_row_bit(rows[r], c)));
        assert(g1[pix]);
        assert(draw_collides(g1, x, y, rows));
    }
    lemma_draw_twice_restores(g0, x, y, rows);
}

/// Register-register add wraps on unsigned 8-bit overflow and reports the
/// carry in the flag register: 1 when the true sum exceeds 255, else 0.
pub proof fn lemma_alu_add(v: Seq<u8>, x: int, y: int)
    requires
        v.len() == 16,
        0 <= x < 15,
        0 <= y < 16,
    ensures
        alu_v(v, x, y, 4)[x] as int == (v[x] + v[y]) % 256,
        alu_v(v, x, y, 4)[15] == (if v[x] + v[y] > 255 {
            1u8
        } else {
            0u8
        }),
        v[x] + v[y] <= 255 ==> alu_v(v, x, y, 4)[x] as int == v[x] + v[y],
        v[x] + v[y] > 255 ==> alu_v(v, x, y, 4)[x] as int == v[x] + v[y] - 256,
{
    if v[x] + v[y] <= 255 {
        vstd::arithmetic::div_mod::lemma_small_mod((v[x] + v[y]) as nat, 256);
    } else {
        vstd::arithmetic::div_mod::lemma_mod_add_multiples_vanish(v[x] + v[y] - 256, 256);
        vstd::arithmetic::div_mod::lemma_small_mod((v[x] + v[y] - 256) as nat, 256);
    }
}

/// Register-register subtract stores the wrapped difference and reports the
/// borrow convention in the flag register: 1 when the minuend is at least
/// the subtrahend (no borrow), else 0.
pub proof fn lemma_alu_sub(v: Seq<u8>, x: int, y: int)
    requires
        v.len() == 16,
        0 <= x < 15,
        0 <= y < 16,
    ensures
        alu_v(v, x, y, 5)[x] as int == (v[x] - v[y]) % 256,
        alu_v(v, x, y, 5)[15] == (if v[x] >= v[y] {
            1u8
        } else {
            0u8
        }),
        v[x] >= v[y] ==> alu_v(v, x, y, 5)[x] as int == v[x] - v[y],
        v[x] < v[y] ==> alu_v(v, x, y, 5)[x] as int == v[x] - v[y] + 256,
{
    if v[x] >= v[y] {
        vstd::arithmetic::div_mod::lemma_small_mod((v[x] - v[y]) as nat, 256);
    } else {
        vstd::arithmetic::div_mod::lemma_mod_add_multiples_vanish(v[x] - v[y], 256);
        vstd::arithmetic::div_mod::lemma_small_mod((v[x] - v[y] + 256) as nat, 256);
    }
}

/// A call immediately followed by a return restores the pre-call control
/// flow: the counter lands on the instruction after the call, the stack
/// pointer is back where it was, and registers, index and memory are
/// untouched.
pub proof fn lemma_call_then_ret(
    pre: VirtualMachine,
    mid: VirtualMachine,
    post: VirtualMachine,
    t0: Timer,
    t1: Timer,
    t2: Timer,
    s0: Sound,
    s1: Sound,
    s2: Sound,
    d0: Display,
    d1: Display,
    d2: Display,
    k0: Keyboard,
    k1: Keyboard,
    k2: Keyboard,
    r1: Result<(), VmError>,
    r2: Result<(), VmError>,
)
    requires
        pre.wf(),
        pre.pc + 1 < MEMORY_SIZE,
        op_class(pre.spec_opcode()) == 0x2,
        pre.sp < 16,
        step_rel(pre, mid, t0, t1, s0, s1, d0, d1, k0, k1, r1),
        mid.spec_opcode() == 0x00EE,
        step_rel(mid, post, t1, t2, s1, s2, d1, d2, k1, k2, r2),
    ensures
        r1 == Ok::<(), VmError>(()),
        r2 == Ok::<(), VmError>(()),
        post.pc as int == pre.pc + 2,
        post.sp == pre.sp,
        post.i == pre.i,
        post.v@ == pre.v@,
        post.memory@ == pre.memory@,
{
    assert(0x00EEu16 >> 12u16 == 0u16) by (bit_vector);
    assert(op_class(mid.spec_opcode()) == 0);
    assert(mid.stack@[pre.sp as int] == (pre.pc + 2) as u16);
}

/// A bare return on an empty call stack fails with the empty-stack error and
/// leaves everything but the already-advanced counter unchanged.
pub proof fn lemma_ret_empty_stack(
    pre: VirtualMachine,
    post: VirtualMachine,
    t0: Timer,
    t1: Timer,
    s0: Sound,
    s1: Sound,
    d0: Display,
    d1: Display,
    k0: Keyboard,
    k1: Keyboard,
    res: Result<(), VmError>,
)
    requires
        pre.wf(),
        pre.spec_opcode() == 0x00EE,
        pre.sp == 0,
        step_rel(pre, post, t0, t1, s0, s1, d0, d1, k0, k1, res),
    ensures
        res == Err::<(), VmError>(VmError::EmptyCallStack),
        post.pc as int == pre.pc + 2,
        post.sp == pre.sp,
        post.i == pre.i,
        post.v@ == pre.v@,
        post.memory@ == pre.memory@,
        post.stack@ == pre.stack@,
        d1 == d0,
        t1 == t0,
        s1 == s0,
        k1 == k0,
{
    assert(0x00EEu16 >> 12u16 == 0u16) by (bit_vector);
    assert(op_class(pre.spec_opcode()) == 0);
}

/// A call succeeds exactly while the call stack has a free slot: with all 16
/// slots in use it fails with the overflow error and changes nothing but the
/// already-advanced counter.
pub proof fn lemma_call_stack_limit(
    pre: VirtualMachine,
    post: VirtualMachine,
    t0: Timer,
    t1: Timer,
    s0: Sound,
    s1: Sound,
    d0: Display,
    d1: Display,
    k0: Keyboard,
    k1: Keyboard,
    res: Result<(), VmError>,
)
    requires
        pre.wf(),
        op_class(pre.spec_opcode()) == 0x2,
        step_rel(pre, post, t0, t1, s0, s1, d0, d1, k0, k1, res),
    ensures
        pre.sp < 16 ==> ({
            &&& res == Ok::<(), VmError>(())
            &&& post.sp == pre.sp + 1
            &&& post.pc == op_addr(pre.spec_opcode())
        }),
        pre.sp == 16 ==> ({
            &&& res == Err::<(), VmError>(VmError::CallStackOverflow)
            &&& post.sp == pre.sp
            &&& post.v@ == pre.v@
            &&& post.memory@ == pre.memory@
            &&& post.stack@ == pre.stack@
        }),
{
}

/// The blocking key read makes no progress while no key press is latched:
/// the counter is rewound so the same instruction repeats, only the
/// latch's pending flag is raised. Once a press is latched, the next step
/// consumes it into the register and advances normally.
pub proof fn lemma_blocking_key_read(
    pre: VirtualMachine,
    post: VirtualMachine,
    t0: Timer,
    t1: Timer,
    s0: Sound,
    s1: Sound,
    d0: Display,
    d1: Display,
    k0: Keyboard,
    k1: Keyboard,
    res: Result<(), VmError>,
)
    requires
        pre.wf(),
        op_class(pre.spec_opcode()) == 0xF,
        op_byte(pre.spec_opcode()) == 0x0A,
        step_rel(pre, post, t0, t1, s0, s1, d0, d1, k0, k1, res),
    ensures
        res == Ok::<(), VmError>(()),
        !(k0.polling && k0.last_pressed >= 0) ==> ({
            &&& post.pc == pre.pc
            &&& post.v@ == pre.v@
            &&& eq_except_pc_v(pre, post)
            &&& k1.polling
            &&& k1.last_pressed == k0.last_pressed
            &&& k1.keys@ == k0.keys@
        }),
        (k0.polling && k0.last_pressed >= 0) ==> ({
            &&& post.pc as int == pre.pc + 2
            &&& post.v@ == pre.v@.update(op_x(pre.spec_opcode()), k0.last_pressed as u8)
            &&& eq_except_pc_v(pre, post)
            &&& !k1.polling
            &&& k1.last_pressed == -1
            &&& k1.keys@ == k0.keys@
        }),
{
}

} // verus!
