//! The CHIP-8 virtual machine: memory, registers, timers, keypad and a
//! 64x32 monochrome display, together with the fetch/execute cycle.
//!
//! Memory map:
//! - `0x000-0x1FF`: interpreter area (the built-in font lives at `0x050-0x09F`)
//! - `0x200-0xFFF`: program ROM and work RAM
//!
//! Sprites are drawn with XOR, so drawing the same sprite twice erases it;
//! when a draw switches a pixel off, `VF` is set to 1 (collision).

use vstd::prelude::*;
use rand::rngs::ThreadRng;

verus! {

/// Width of the display in pixels.
pub const WIDTH: usize = 64;

/// Height of the display in pixels.
pub const HEIGHT: usize = 32;

/// 10 cycles per frame: at 60 frames per second this is 600 Hz.
pub const CYCLES_PER_FRAME: usize = 10;

/// Size of the addressable memory in bytes.
pub const MEMORY_SIZE: usize = 4096;

/// Address at which ROMs are loaded and execution starts.
pub const PROGRAM_START: usize = 0x200;

/// Address of the built-in font (16 glyphs of 5 bytes each).
pub const FONT_START: usize = 0x050;

#[verifier::external_type_specification]
#[verifier::external_body]
pub struct ExThreadRng(ThreadRng);

/// The built-in 4x5 font for the hexadecimal digits `0`-`F`, one byte per row.
pub open spec fn font_glyphs() -> Seq<u8> {
    seq![
        0xF0u8, 0x90, 0x90, 0x90, 0xF0, // 0
        0x20, 0x60, 0x20, 0x20, 0x70, // 1
        0xF0, 0x10, 0xF0, 0x80, 0xF0, // 2
        0xF0, 0x10, 0xF0, 0x10, 0xF0, // 3
        0x90, 0x90, 0xF0, 0x10, 0x10, // 4
        0xF0, 0x80, 0xF0, 0x10, 0xF0, // 5
        0xF0, 0x80, 0xF0, 0x90, 0xF0, // 6
        0xF0, 0x10, 0x20, 0x40, 0x40, // 7
        0xF0, 0x90, 0xF0, 0x90, 0xF0, // 8
        0xF0, 0x90, 0xF0, 0x10, 0xF0, // 9
        0xF0, 0x90, 0xF0, 0x90, 0x90, // A
        0xE0, 0x90, 0xE0, 0x90, 0xE0, // B
        0xF0, 0x80, 0x80, 0x80, 0xF0, // C
        0xE0, 0x90, 0x90, 0x90, 0xE0, // D
        0xF0, 0x80, 0xF0, 0x80, 0xF0, // E
        0xF0, 0x80, 0xF0, 0x80, 0x80, // F
    ]
}

/// The mathematical state of the machine.
#[verifier::ext_equal]
pub ghost struct Machine {
    pub memory: Seq<u8>,
    pub v: Seq<u8>,
    pub i: u16,
    pub pc: usize,
    pub gfx: Seq<bool>,
    pub delay_timer: u8,
    pub sound_timer: u8,
    pub stack: Seq<u16>,
    pub sp: usize,
    pub key: Seq<bool>,
    pub shift_y: bool,
    pub jump_bxnn: bool,
    pub change_idx: bool,
}

/// Why a cycle cannot be executed.
#[derive(Debug, Clone, Copy, PartialEq, Eq)]
pub enum Fault {
    /// The fetched word is not an instruction; `pc` is the program counter
    /// after the fetch.
    UnknownOpcode { opcode: u16, pc: usize },
    /// `00EE` with an empty call stack.
    StackUnderflow { pc: usize },
    /// `2NNN` with a full call stack.
    StackOverflow { pc: usize },
    /// The stack pointer lies beyond the call stack.
    StackOutOfRange,
    /// A fetch, sprite read, BCD store or register store/load would touch an
    /// address outside memory.
    MemoryOutOfRange,
    /// `EX9E`/`EXA1` with a key number in `VX` that is not 0-F.
    KeyOutOfRange,
    /// `FX1E` would take the index register beyond `0xFFFF`.
    IndexOverflow,
}

// ---------------------------------------------------------------------------
// Opcode fields

/// `0xN###`
pub open spec fn op_kind(w: u16) -> int { w as int / 4096 }
/// `0x#X##`
pub open spec fn op_x(w: u16) -> int { (w as int / 256) % 16 }
/// `0x##Y#`
pub open spec fn op_y(w: u16) -> int { (w as int / 16) % 16 }
/// `0x###N`
pub open spec fn op_n(w: u16) -> int { w as int % 16 }
/// `0x##NN`
pub open spec fn op_nn(w: u16) -> int { w as int % 256 }
/// `0x#NNN`
pub open spec fn op_nnn(w: u16) -> int { w as int % 4096 }

// ---------------------------------------------------------------------------
// Semantics

/// The big-endian word at the program counter.
pub open spec fn fetch(m: Machine) -> u16 {
    (m.memory[m.pc as int] as int * 256 + m.memory[m.pc + 1] as int) as u16
}

/// The machine with its program counter moved past the fetched word.
pub open spec fn advance(m: Machine) -> Machine {
    Machine { pc: (m.pc + 2) as usize, ..m }
}

pub open spec fn skip_if(m: Machine, c: bool) -> Machine {
    if c { Machine { pc: (m.pc + 2) as usize, ..m } } else { m }
}

pub open spec fn with_v(m: Machine, k: int, val: u8) -> Machine {
    Machine { v: m.v.update(k, val), ..m }
}

/// Bit `d` of `b`, where bit 0 is the most significant one.
pub open spec fn bit_at(b: u8, d: int) -> bool {
    (b >> ((7 - d) as u8)) & 1u8 == 1u8
}

pub open spec fn draw_x(m: Machine, w: u16) -> int { m.v[op_x(w)] as int % 64 }
pub open spec fn draw_y(m: Machine, w: u16) -> int { m.v[op_y(w)] as int % 32 }

/// Whether `DXYN` lights display cell `k` (row `k / 64`, column `k % 64`):
/// the cell lies in the (clipped) 8xN sprite box and the sprite's bit is set.
pub open spec fn sprite_pixel(m: Machine, w: u16, k: int) -> bool {
    let row = k / 64;
    let col = k % 64;
    let xs = draw_x(m, w);
    let ys = draw_y(m, w);
    &&& ys <= row < ys + op_n(w)
    &&& xs <= col < xs + 8
    &&& bit_at(m.memory[m.i as int + row - ys], col - xs)
}

/// Whether `DXYN` switches off some pixel that is on.
pub open spec fn draw_collides(m: Machine, w: u16) -> bool {
    exists|k: int| 0 <= k < 2048 && #[trigger] sprite_pixel(m, w, k) && m.gfx[k]
}

/// The number of sprite rows that `DXYN` reads (rows below the screen are clipped).
pub open spec fn draw_rows(m: Machine, w: u16) -> int {
    if op_n(w) < 32 - draw_y(m, w) { op_n(w) } else { 32 - draw_y(m, w) }
}

pub open spec fn draw(m: Machine, w: u16) -> Machine {
    Machine {
        gfx: Seq::new(2048, |k: int| m.gfx[k] != sprite_pixel(m, w, k)),
        v: m.v.update(15, if draw_collides(m, w) { 1u8 } else { 0u8 }),
        ..m
    }
}

/// The first key at or after `j` that is held down, or 16 when there is none.
pub open spec fn first_key(key: Seq<bool>, j: int) -> int
    decreases 16 - j,
{
    if j >= 16 {
        16
    } else if key[j] {
        j
    } else {
        first_key(key, j + 1)
    }
}

/// The `8XYN` register operations.
pub open spec fn exec_alu(m: Machine, w: u16) -> Machine {
    let x = op_x(w);
    let y = op_y(w);
    let vx = m.v[x];
    let vy = m.v[y];
    let src = if m.shift_y { vy } else { vx };
    if op_n(w) == 0x0 {
        with_v(m, x, vy)
    } else if op_n(w) == 0x1 {
        Machine { v: m.v.update(x, vx | vy).update(15, 0), ..m }
    } else if op_n(w) == 0x2 {
        Machine { v: m.v.update(x, vx & vy).update(15, 0), ..m }
    } else if op_n(w) == 0x3 {
        Machine { v: m.v.update(x, vx ^ vy).update(15, 0), ..m }
    } else if op_n(w) == 0x4 {
        Machine {
            v: m.v.update(x, ((vx + vy) % 256) as u8).update(15, if vx + vy >= 256 { 1u8 } else { 0u8 }),
            ..m
        }
    } else if op_n(w) == 0x5 {
        Machine {
            v: m.v.update(x, ((vx - vy + 256) % 256) as u8).update(15, if vx >= vy { 1u8 } else { 0u8 }),
            ..m
        }
    } else if op_n(w) == 0x6 {
        let v1 = m.v.update(x, src).update(15, (src % 2) as u8);
        Machine { v: v1.update(x, v1[x] / 2), ..m }
    } else if op_n(w) == 0x7 {
        Machine {
            v: m.v.update(x, ((vy - vx + 256) % 256) as u8).update(15, if vy >= vx { 1u8 } else { 0u8 }),
            ..m
        }
    } else if op_n(w) == 0xE {
        let v1 = m.v.update(x, src).update(15, if src >= 128 { 1u8 } else { 0u8 });
        Machine { v: v1.update(x, ((v1[x] * 2) % 256) as u8), ..m }
    } else {
        m
    }
}

/// The `FXNN` operations.
pub open spec fn exec_misc(m: Machine, w: u16) -> Machine {
    let x = op_x(w);
    let vx = m.v[x];
    let i = m.i as int;
    if op_nn(w) == 0x07 {
        with_v(m, x, m.delay_timer)
    } else if op_nn(w) == 0x15 {
        Machine { delay_timer: vx, ..m }
    } else if op_nn(w) == 0x18 {
        Machine { sound_timer: vx, ..m }
    } else if op_nn(w) == 0x1E {
        let ni = i + vx;
        Machine { i: ni as u16, v: m.v.update(15, if ni > 0x0FFF { 1u8 } else { 0u8 }), ..m }
    } else if op_nn(w) == 0x0A {
        let k = first_key(m.key, 0);
        if k < 16 {
            with_v(m, x, k as u8)
        } else {
            Machine { pc: (m.pc - 2) as usize, ..m }
        }
    } else if op_nn(w) == 0x29 {
        Machine { i: (0x50 + (vx % 16) * 5) as u16, ..m }
    } else if op_nn(w) == 0x33 {
        Machine {
            memory: m.memory.update(i, vx / 100).update(i + 1, (vx / 10) % 10).update(i + 2, vx % 10),
            ..m
        }
    } else if op_nn(w) == 0x55 {
        Machine {
            memory: Seq::new(4096, |a: int| if i <= a <= i + x { m.v[a - i] } else { m.memory[a] }),
            i: if m.change_idx { (i + x + 1) as u16 } else { m.i },
            ..m
        }
    } else if op_nn(w) == 0x65 {
        Machine {
            v: Seq::new(16, |k: int| if k <= x { m.memory[i + k] } else { m.v[k] }),
            i: if m.change_idx { (i + x + 1) as u16 } else { m.i },
            ..m
        }
    } else {
        m
    }
}

/// The effect of executing `w` on `m`, whose program counter already points
/// past `w`; `r` is the random byte that `CXNN` uses.
pub open spec fn exec_op(m: Machine, w: u16, r: u8) -> Machine {
    let x = op_x(w);
    let vx = m.v[x];
    let kind = op_kind(w);
    if kind == 0x0 {
        if w == 0x00E0 {
            Machine { gfx: Seq::new(2048, |k: int| false), ..m }
        } else if w == 0x00EE {
            Machine { sp: (m.sp - 1) as usize, pc: m.stack[m.sp - 1] as usize, ..m }
        } else {
            m
        }
    } else if kind == 0x1 {
        Machine { pc: op_nnn(w) as usize, ..m }
    } else if kind == 0x2 {
        Machine {
            stack: m.stack.update(m.sp as int, m.pc as u16),
            sp: (m.sp + 1) as usize,
            pc: op_nnn(w) as usize,
            ..m
        }
    } else if kind == 0x3 {
        skip_if(m, vx == op_nn(w))
    } else if kind == 0x4 {
        skip_if(m, vx != op_nn(w))
    } else if kind == 0x5 {
        skip_if(m, vx == m.v[op_y(w)])
    } else if kind == 0x6 {
        with_v(m, x, op_nn(w) as u8)
    } else if kind == 0x7 {
        with_v(m, x, ((vx + op_nn(w)) % 256) as u8)
    } else if kind == 0x8 {
        exec_alu(m, w)
    } else if kind == 0x9 {
        skip_if(m, vx != m.v[op_y(w)])
    } else if kind == 0xA {
        Machine { i: op_nnn(w) as u16, ..m }
    } else if kind == 0xB {
        if m.jump_bxnn {
            Machine { pc: (op_nn(w) + vx) as usize, ..m }
        } else {
            Machine { pc: (op_nnn(w) + m.v[0]) as usize, ..m }
        }
    } else if kind == 0xC {
        with_v(m, x, r & (op_nn(w) as u8))
    } else if kind == 0xD {
        draw(m, w)
    } else if kind == 0xE {
        if op_nn(w) == 0x9E {
            skip_if(m, m.key[vx as int])
        } else if op_nn(w) == 0xA1 {
            skip_if(m, !m.key[vx as int])
        } else {
            m
        }
    } else {
        exec_misc(m, w)
    }
}

/// Why executing `w` on `m` (program counter already past `w`) would fail,
/// if it would.
pub open spec fn op_fault(m: Machine, w: u16) -> Option<Fault> {
    let x = op_x(w);
    let vx = m.v[x];
    let i = m.i as int;
    let kind = op_kind(w);
    let unknown = Some(Fault::UnknownOpcode { opcode: w, pc: m.pc });
    if kind == 0x0 {
        if w == 0x00E0 {
            None
        } else if w == 0x00EE {
            if m.sp == 0 {
                Some(Fault::StackUnderflow { pc: m.pc })
            } else if m.sp > 16 {
                Some(Fault::StackOutOfRange)
            } else {
                None
            }
        } else {
            unknown
        }
    } else if kind == 0x2 {
        if m.sp == 16 {
            Some(Fault::StackOverflow { pc: m.pc })
        } else if m.sp > 16 {
            Some(Fault::StackOutOfRange)
        } else {
            None
        }
    } else if kind == 0x8 {
        if op_n(w) <= 7 || op_n(w) == 0xE { None } else { unknown }
    } else if kind == 0xD {
        if draw_rows(m, w) > 0 && i + draw_rows(m, w) - 1 >= 4096 {
            Some(Fault::MemoryOutOfRange)
        } else {
            None
        }
    } else if kind == 0xE {
        if op_nn(w) == 0x9E || op_nn(w) == 0xA1 {
            if vx >= 16 { Some(Fault::KeyOutOfRange) } else { None }
        } else {
            unknown
        }
    } else if kind == 0xF {
        let nn = op_nn(w);
        if nn == 0x07 || nn == 0x15 || nn == 0x18 || nn == 0x0A || nn == 0x29 {
            None
        } else if nn == 0x1E {
            if i + vx > 0xFFFF { Some(Fault::IndexOverflow) } else { None }
        } else if nn == 0x33 {
            if i + 2 >= 4096 { Some(Fault::MemoryOutOfRange) } else { None }
        } else if nn == 0x55 || nn == 0x65 {
            if i + x >= 4096 { Some(Fault::MemoryOutOfRange) } else { None }
        } else {
            unknown
        }
    } else {
        None
    }
}

/// Why the next cycle of `m` would fail, if it would.
pub open spec fn cycle_fault(m: Machine) -> Option<Fault> {
    if m.pc + 1 >= 4096 {
        Some(Fault::MemoryOutOfRange)
    } else {
        op_fault(advance(m), fetch(m))
    }
}

/// One fetch/execute cycle of `m`, where `r` is the random byte that a
/// `CXNN` instruction would use.
pub open spec fn step(m: Machine, r: u8) -> Machine {
    exec_op(advance(m), fetch(m), r)
}

/// The machine after a 60 Hz timer tick.
pub open spec fn tick_timers(m: Machine) -> Machine {
    Machine {
        delay_timer: if m.delay_timer > 0 { (m.delay_timer - 1) as u8 } else { 0 },
        sound_timer: if m.sound_timer > 0 { (m.sound_timer - 1) as u8 } else { 0 },
        ..m
    }
}

/// The state of a freshly created machine.
pub open spec fn initial() -> Machine {
    Machine {
        memory: Seq::new(4096, |a: int| 0u8),
        v: Seq::new(16, |k: int| 0u8),
        i: 0,
        pc: 0x200,
        gfx: Seq::new(2048, |k: int| false),
        delay_timer: 0,
        sound_timer: 0,
        stack: Seq::new(16, |k: int| 0u16),
        sp: 0,
        key: Seq::new(16, |k: int| false),
        shift_y: true,
        jump_bxnn: false,
        change_idx: true,
    }
}

/// Memory after loading the font and a ROM: the font at `0x050`, the ROM at
/// `0x200`, everything else as before.
pub open spec fn loaded_memory(mem: Seq<u8>, rom: Seq<u8>) -> Seq<u8> {
    Seq::new(4096, |a: int|
        if 0x50 <= a < 0xA0 {
            font_glyphs()[a - 0x50]
        } else if 0x200 <= a < 0x200 + rom.len() {
            rom[a - 0x200]
        } else {
            mem[a]
        })
}

// ---------------------------------------------------------------------------
// The machine

/// The CHIP-8 interpreter state.
pub struct Chip8 {
    /// 4096 bytes of memory.
    memory: [u8; 4096],
    /// Registers `V0`-`VF`.
    v: [u8; 16],
    /// Index register (holds a memory address).
    i: u16,
    /// Program counter.
    pc: usize,
    /// 64x32 display, one `bool` per pixel, row by row.
    gfx: [bool; 2048],
    /// 60 Hz delay timer.
    delay_timer: u8,
    /// 60 Hz sound timer; a tone plays while it is non-zero.
    sound_timer: u8,
    /// Return addresses of the subroutine calls in progress.
    stack: [u16; 16],
    /// Number of entries on the stack (where the next one is stored).
    sp: usize,
    /// Which of the 16 keys are held down.
    key: [bool; 16],
    /// Whether `8XY6` and `8XYE` shift `VY` (rather than `VX`) into `VX`.
    shift_y: bool,
    /// Whether `BXNN` jumps to `XNN + VX` (rather than `NNN + V0`).
    jump_bxnn: bool,
    /// Whether `FX55`/`FX65` advance the index register.
    change_idx: bool,
    rng: ThreadRng,
}

impl View for Chip8 {
    type V = Machine;

    closed spec fn view(&self) -> Machine {
        Machine {
            memory: self.memory@,
            v: self.v@,
            i: self.i,
            pc: self.pc,
            gfx: self.gfx@,
            delay_timer: self.delay_timer,
            sound_timer: self.sound_timer,
            stack: self.stack@,
            sp: self.sp,
            key: self.key@,
            shift_y: self.shift_y,
            jump_bxnn: self.jump_bxnn,
            change_idx: self.change_idx,
        }
    }
}

/// The sizes of a machine's parts: 4096 bytes of memory, 16 registers, a
/// 64x32 display, 16 stack entries and 16 keys.
pub open spec fn sized(m: Machine) -> bool {
    &&& m.memory.len() == 4096
    &&& m.v.len() == 16
    &&& m.gfx.len() == 2048
    &&& m.stack.len() == 16
    &&& m.key.len() == 16
}

impl Chip8 {
    /// Every machine has the sizes of [`sized`].
    pub proof fn lemma_sizes(&self)
        ensures
            sized(self@),
    {
    }
}

/// A handle to the thread-local random number generator.
///
/// Calls `rand::rng()`; nothing is claimed of the handle.
#[verifier::external_body]
fn thread_rng() -> ThreadRng {
    rand::rng()
}

/// A uniformly random byte.
///
/// Calls `Rng::random::<u8>()` on the generator; the byte can be any value,
/// so nothing is claimed of it.
#[verifier::external_body]
fn random_byte(rng: &mut ThreadRng) -> u8 {
    rand::Rng::random::<u8>(rng)
}

impl Chip8 {
    /// A machine with cleared memory, registers and display, the program
    /// counter at `0x200`, and the quirks `shift_y` and `change_idx` on and
    /// `jump_bxnn` off.
    pub fn new() -> (chip: Self)
        ensures
            chip@ == initial(),
    {
        let chip = Self {
            memory: [0u8; 4096],
            v: [0u8; 16],
            i: 0,
            pc: 0x200,
            gfx: [false; 2048],
            delay_timer: 0,
            sound_timer: 0,
            stack: [0u16; 16],
            sp: 0,
            key: [false; 16],
            shift_y: true,
            jump_bxnn: false,
            change_idx: true,
            rng: thread_rng(),
        };
        assert(chip.memory@ =~= initial().memory);
        assert(chip.v@ =~= initial().v);
        assert(chip.gfx@ =~= initial().gfx);
        assert(chip.stack@ =~= initial().stack);
        assert(chip.key@ =~= initial().key);
        assert(chip@ =~= initial());
        chip
    }

    /// The display, 64x32 pixels row by row.
    pub fn gfx(&self) -> (g: &[bool; 2048])
        ensures
            g@ == self@.gfx,
    {
        &self.gfx
    }

    /// The sound timer; a tone plays while it is non-zero.
    pub fn sound_timer(&self) -> (t: u8)
        ensures
            t == self@.sound_timer,
    {
        self.sound_timer
    }

    /// Marks key `k` as held down.
    pub fn key_down(&mut self, k: usize)
        requires
            k < 16,
        ensures
            final(self)@ == (Machine { key: old(self)@.key.update(k as int, true), ..old(self)@ }),
    {
        self.key[k] = true;
    }

    /// Marks key `k` as released.
    pub fn key_up(&mut self, k: usize)
        requires
            k < 16,
        ensures
            final(self)@ == (Machine { key: old(self)@.key.update(k as int, false), ..old(self)@ }),
    {
        self.key[k] = false;
    }

    /// Counts both timers down by one, stopping at zero. Call once per frame
    /// (60 Hz).
    pub fn tick(&mut self)
        ensures
            final(self)@ == tick_timers(old(self)@),
    {
        if self.delay_timer > 0 {
            self.delay_timer -= 1;
        }
        if self.sound_timer > 0 {
            self.sound_timer -= 1;
        }
    }

    /// Loads the built-in font at `0x050` and `rom` at `0x200`.
    pub fn load_rom(&mut self, rom: &[u8])
        requires
            rom@.len() <= 4096 - 0x200,
        ensures
            final(self)@ == (Machine { memory: loaded_memory(old(self)@.memory, rom@), ..old(self)@ }),
    {
        self.load_font();
        let mut k: usize = 0;
        while k < rom.len()
            invariant
                k <= rom@.len() <= 4096 - 0x200,
                self@ == (Machine { memory: self@.memory, ..old(self)@ }),
                self@.memory.len() == 4096,
                forall|a: int| 0 <= a < 4096 ==> #[trigger] self@.memory[a] == (
                    if 0x200 <= a < 0x200 + k {
                        rom@[a - 0x200]
                    } else {
                        loaded_memory(old(self)@.memory, Seq::empty())[a]
                    }),
            decreases rom@.len() - k,
        {
            self.memory[0x200 + k] = rom[k];
            k += 1;
        }
        assert(self@.memory =~= loaded_memory(old(self)@.memory, rom@));
    }

    /// Writes the built-in font to `0x050-0x09F`.
    fn load_font(&mut self)
        ensures
            final(self)@ == (Machine { memory: loaded_memory(old(self)@.memory, Seq::empty()), ..old(self)@ }),
    {
        let font: [u8; 80] = [
            0xF0, 0x90, 0x90, 0x90, 0xF0, // 0
            0x20, 0x60, 0x20, 0x20, 0x70, // 1
            0xF0, 0x10, 0xF0, 0x80, 0xF0, // 2
            0xF0, 0x10, 0xF0, 0x10, 0xF0, // 3
            0x90, 0x90, 0xF0, 0x10, 0x10, // 4
            0xF0, 0x80, 0xF0, 0x10, 0xF0, // 5
            0xF0, 0x80, 0xF0, 0x90, 0xF0, // 6
            0xF0, 0x10, 0x20, 0x40, 0x40, // 7
            0xF0, 0x90, 0xF0, 0x90, 0xF0, // 8
            0xF0, 0x90, 0xF0, 0x10, 0xF0, // 9
            0xF0, 0x90, 0xF0, 0x90, 0x90, // A
            0xE0, 0x90, 0xE0, 0x90, 0xE0, // B
            0xF0, 0x80, 0x80, 0x80, 0xF0, // C
            0xE0, 0x90, 0x90, 0x90, 0xE0, // D
            0xF0, 0x80, 0xF0, 0x80, 0xF0, // E
            0xF0, 0x80, 0xF0, 0x80, 0x80, // F
        ];
        assert(font@ =~= font_glyphs());
        let mut a: usize = 0x050;
        while a <= 0x09F
            invariant
                0x50 <= a <= 0xA0,
                font@ == font_glyphs(),
                self@ == (Machine { memory: self@.memory, ..old(self)@ }),
                self@.memory.len() == 4096,
                forall|b: int| 0 <= b < 4096 ==> #[trigger] self@.memory[b] == (
                    if 0x50 <= b < a { font_glyphs()[b - 0x50] } else { old(self)@.memory[b] }),
            decreases 0xA0 - a,
        {
            self.memory[a] = font[a - 0x050];
            a += 1;
        }
        assert(self@.memory =~= loaded_memory(old(self)@.memory, Seq::empty()));
    }
}


pub proof fn lemma_opcode_fields(w: u16)
    ensures
        w & 0xF000 == (w as int / 4096) * 4096,
        (w & 0x0F00) >> 8u16 == op_x(w),
        (w & 0x00F0) >> 4u16 == op_y(w),
        w & 0x000F == op_n(w),
        w & 0x00FF == op_nn(w),
        w & 0x0FFF == op_nnn(w),
{
    assert(w & 0xF000 == (w / 4096) * 4096) by (bit_vector);
    assert((w & 0x0F00) >> 8u16 == (w / 256) % 16) by (bit_vector);
    assert((w & 0x00F0) >> 4u16 == (w / 16) % 16) by (bit_vector);
    assert(w & 0x000F == w % 16) by (bit_vector);
    assert(w & 0x00FF == w % 256) by (bit_vector);
    assert(w & 0x0FFF == w % 4096) by (bit_vector);
}

impl Chip8 {
    /// `0x#NNN`
    fn nnn(&self, opcode: u16) -> (r: u16)
        ensures
            r == op_nnn(opcode),
    {
        proof { lemma_opcode_fields(opcode); }
        opcode & 0x0FFF
    }

    /// `0x##NN`
    fn nn(&self, opcode: u16) -> (r: u8)
        ensures
            r == op_nn(opcode),
    {
        proof { lemma_opcode_fields(opcode); }
        (opcode & 0x00FF) as u8
    }

    /// `0x###N`
    fn n(&self, opcode: u16) -> (r: u16)
        ensures
            r == op_n(opcode),
    {
        proof { lemma_opcode_fields(opcode); }
        opcode & 0x000F
    }

    /// `0x#X##`
    fn x(&self, opcode: u16) -> (r: usize)
        ensures
            r == op_x(opcode),
            r < 16,
    {
        proof { lemma_opcode_fields(opcode); }
        ((opcode & 0x0F00) >> 8) as usize
    }

    /// `0x##Y#`
    fn y(&self, opcode: u16) -> (r: usize)
        ensures
            r == op_y(opcode),
            r < 16,
    {
        proof { lemma_opcode_fields(opcode); }
        ((opcode & 0x00F0) >> 4) as usize
    }

    /// `0x#XY#` as `(X, Y)`
    fn xy(&self, opcode: u16) -> (r: (usize, usize))
        ensures
            r.0 == op_x(opcode),
            r.1 == op_y(opcode),
            r.0 < 16,
            r.1 < 16,
    {
        (self.x(opcode), self.y(opcode))
    }

    /// Bit `bit` of `num`, where bit 0 is the most significant one.
    fn get_bit(&self, num: u8, bit: u8) -> (r: bool)
        requires
            bit < 8,
        ensures
            r == bit_at(num, bit as int),
    {
        ((num >> (7 - bit)) & 1) == 1
    }

    /// Reads the big-endian word at the program counter and moves past it.
    fn next_opcode(&mut self) -> (w: u16)
        requires
            old(self)@.pc + 1 < 4096,
        ensures
            w == fetch(old(self)@),
            final(self)@ == advance(old(self)@),
    {
        let hi = self.memory[self.pc];
        let lo = self.memory[self.pc + 1];
        let out = (hi as u16) << 8 | (lo as u16);
        assert(((hi as u16) << 8u16 | (lo as u16)) == hi as u16 * 256 + lo as u16) by (bit_vector);
        self.pc += 2;
        out
    }

    /// Why the next cycle would fail, or `None` when it can run.
    pub fn fault(&self) -> (f: Option<Fault>)
        ensures
            f == cycle_fault(self@),
    {
        if self.pc >= 4095 {
            return Some(Fault::MemoryOutOfRange);
        }
        let hi = self.memory[self.pc];
        let lo = self.memory[self.pc + 1];
        let opcode = (hi as u16) << 8 | (lo as u16);
        assert(((hi as u16) << 8u16 | (lo as u16)) == hi as u16 * 256 + lo as u16) by (bit_vector);
        let pc = self.pc + 2;
        proof { lemma_opcode_fields(opcode); }
        let unknown = Some(Fault::UnknownOpcode { opcode, pc });
        let x = self.x(opcode);
        let vx = self.v[x];
        let i = self.i as usize;
        match opcode & 0xF000 {
            0x0000 => {
                if opcode == 0x00E0 {
                    None
                } else if opcode == 0x00EE {
                    if self.sp == 0 {
                        Some(Fault::StackUnderflow { pc })
                    } else if self.sp > 16 {
                        Some(Fault::StackOutOfRange)
                    } else {
                        None
                    }
                } else {
                    unknown
                }
            },
            0x2000 => {
                if self.sp == 16 {
                    Some(Fault::StackOverflow { pc })
                } else if self.sp > 16 {
                    Some(Fault::StackOutOfRange)
                } else {
                    None
                }
            },
            0x8000 => {
                let op = self.n(opcode);
                if op <= 7 || op == 0xE {
                    None
                } else {
                    unknown
                }
            },
            0xD000 => {
                let y = self.y(opcode);
                let ys = (self.v[y] % 32) as usize;
                let n = self.n(opcode) as usize;
                let rows = if n < 32 - ys { n } else { 32 - ys };
                if rows > 0 && i + rows - 1 >= 4096 {
                    Some(Fault::MemoryOutOfRange)
                } else {
                    None
                }
            },
            0xE000 => {
                let op = self.nn(opcode);
                if op == 0x9E || op == 0xA1 {
                    if vx >= 16 {
                        Some(Fault::KeyOutOfRange)
                    } else {
                        None
                    }
                } else {
                    unknown
                }
            },
            0xF000 => {
                let nn = self.nn(opcode);
                if nn == 0x07 || nn == 0x15 || nn == 0x18 || nn == 0x0A || nn == 0x29 {
                    None
                } else if nn == 0x1E {
                    if i + vx as usize > 0xFFFF {
                        Some(Fault::IndexOverflow)
                    } else {
                        None
                    }
                } else if nn == 0x33 {
                    if i + 2 >= 4096 {
                        Some(Fault::MemoryOutOfRange)
                    } else {
                        None
                    }
                } else if nn == 0x55 || nn == 0x65 {
                    if i + x >= 4096 {
                        Some(Fault::MemoryOutOfRange)
                    } else {
                        None
                    }
                } else {
                    unknown
                }
            },
            _ => None,
        }
    }

    /// Runs one fetch/execute cycle, drawing a random byte from the
    /// thread-local generator when the instruction is `CXNN`.
    pub fn cycle(&mut self)
        requires
            cycle_fault(old(self)@) is None,
        ensures
            exists|r: u8| final(self)@ == #[trigger] step(old(self)@, r),
    {
        let hi = self.memory[self.pc];
        let random = if hi & 0xF0 == 0xC0 {
            random_byte(&mut self.rng)
        } else {
            0
        };
        self.cycle_with(random);
        assert(self@ == step(old(self)@, random));
    }

    /// Runs one fetch/execute cycle; `random` is the byte that a `CXNN`
    /// instruction combines with `NN`.
    pub fn cycle_with(&mut self, random: u8)
        requires
            cycle_fault(old(self)@) is None,
        ensures
            final(self)@ == step(old(self)@, random),
    {
        let opcode = self.next_opcode();
        self.execute(opcode, random);
    }

    /// Executes `opcode`; the program counter already points past it.
    fn execute(&mut self, opcode: u16, random: u8)
        requires
            2 <= old(self)@.pc <= 4097,
            op_fault(old(self)@, opcode) is None,
        ensures
            final(self)@ == exec_op(old(self)@, opcode, random),
    {
        proof { lemma_opcode_fields(opcode); }
        let ghost m = self@;
        match opcode & 0xF000 {
            0x0000 => {
                if opcode == 0x00E0 {
                    // clear screen
                    self.gfx = [false; 2048];
                    assert(self.gfx@ =~= Seq::new(2048, |k: int| false));
                } else if opcode == 0x00EE {
                    // return: sp points one past the top of the stack
                    self.sp -= 1;
                    let address = self.stack[self.sp];
                    self.pc = address as usize;
                }
            },
            0x1000 => {
                // jump (1NNN)
                let address = self.nnn(opcode);
                self.pc = address as usize;
            },
            0x2000 => {
                // call (2NNN)
                let address = self.nnn(opcode);
                self.stack[self.sp] = self.pc as u16;
                self.sp += 1;
                self.pc = address as usize;
            },
            0x3000 => {
                // skip if VX == NN (3XNN)
                let x = self.x(opcode);
                let nn = self.nn(opcode);
                if self.v[x] == nn {
                    self.pc += 2;
                }
            },
            0x4000 => {
                // skip if VX != NN (4XNN)
                let x = self.x(opcode);
                let nn = self.nn(opcode);
                if self.v[x] != nn {
                    self.pc += 2;
                }
            },
            0x5000 => {
                // skip if VX == VY (5XY0)
                let (x, y) = self.xy(opcode);
                if self.v[x] == self.v[y] {
                    self.pc += 2;
                }
            },
            0x6000 => {
                // set (6XNN)
                let x = self.x(opcode);
                let nn = self.nn(opcode);
                self.v[x] = nn;
            },
            0x7000 => {
                // add without carry (7XNN)
                let x = self.x(opcode);
                let nn = self.nn(opcode);
                self.v[x] = self.v[x].wrapping_add(nn);
            },
            0x8000 => {
                self.execute_alu(opcode);
            },
            0x9000 => {
                // skip if VX != VY (9XY0)
                let x = self.x(opcode);
                let y = self.y(opcode);
                if self.v[x] != self.v[y] {
                    self.pc += 2;
                }
            },
            0xA000 => {
                // set index (ANNN)
                let nnn = self.nnn(opcode);
                self.i = nnn;
            },
            0xB000 => {
                // jump with offset (BNNN, or BXNN with the quirk)
                if self.jump_bxnn {
                    let nn = self.nn(opcode);
                    let x = self.x(opcode);
                    self.pc = nn as usize + self.v[x] as usize;
                } else {
                    let nnn = self.nnn(opcode);
                    let v0 = self.v[0];
                    self.pc = nnn as usize + v0 as usize;
                }
            },
            0xC000 => {
                // random (CXNN)
                let x = self.x(opcode);
                let nn = self.nn(opcode);
                self.v[x] = random & nn;
            },
            0xD000 => {
                self.draw(opcode);
            },
            0xE000 => {
                let op = self.nn(opcode);
                let x = self.x(opcode);
                let vx = self.v[x];
                if op == 0x9E {
                    // skip if key VX is down (EX9E)
                    if self.key[vx as usize] {
                        self.pc += 2;
                    }
                } else if op == 0xA1 {
                    // skip if key VX is up (EXA1)
                    if !self.key[vx as usize] {
                        self.pc += 2;
                    }
                }
            },
            _ => {
                self.execute_misc(opcode);
            },
        }
        assert(self@ =~= exec_op(m, opcode, random));
    }
}

impl Chip8 {
    /// The `8XYN` register operations.
    #[verifier::rlimit(40)]
    fn execute_alu(&mut self, opcode: u16)
        requires
            op_n(opcode) <= 7 || op_n(opcode) == 0xE,
        ensures
            final(self)@ == exec_alu(old(self)@, opcode),
    {
        let ghost m = self@;
        let op = self.n(opcode);
        let (x, y) = self.xy(opcode);
        if op == 0x0 {
            // VX = VY (8XY0)
            self.v[x] = self.v[y];
        } else if op == 0x1 {
            // VX |= VY (8XY1), VF reset
            self.v[x] = self.v[x] | self.v[y];
            self.v[15] = 0;
        } else if op == 0x2 {
            // VX &= VY (8XY2), VF reset
            self.v[x] = self.v[x] & self.v[y];
            self.v[15] = 0;
        } else if op == 0x3 {
            // VX ^= VY (8XY3), VF reset
            self.v[x] = self.v[x] ^ self.v[y];
            self.v[15] = 0;
        } else if op == 0x4 {
            // VX += VY (8XY4), VF = carry
            let sum: u16 = self.v[x] as u16 + self.v[y] as u16;
            self.v[x] = (sum % 256) as u8;
            self.v[15] = if sum >= 256 { 1 } else { 0 };
        } else if op == 0x5 {
            // VX -= VY (8XY5), VF = no borrow (VX >= VY)
            let vx = self.v[x];
            let vy = self.v[y];
            self.v[x] = vx.wrapping_sub(vy);
            self.v[15] = if vx >= vy { 1 } else { 0 };
        } else if op == 0x6 {
            // VX = (VY or VX) >> 1 (8XY6), VF = shifted-out bit
            if self.shift_y {
                self.v[x] = self.v[y];
            }
            self.v[15] = if self.v[x] & 1 == 1 { 1 } else { 0 };
            let src = self.v[x];
            assert(src & 1 == src % 2) by (bit_vector);
            assert(src >> 1u8 == src / 2) by (bit_vector);
            self.v[x] = src >> 1;
        } else if op == 0x7 {
            // VX = VY - VX (8XY7), VF = no borrow (VY >= VX)
            let vx = self.v[x];
            let vy = self.v[y];
            self.v[x] = vy.wrapping_sub(vx);
            self.v[15] = if vy >= vx { 1 } else { 0 };
        } else {
            // VX = (VY or VX) << 1 (8XYE), VF = shifted-out bit
            if self.shift_y {
                self.v[x] = self.v[y];
            }
            let src = self.v[x];
            assert((src & 0x80 != 0) == (src >= 128)) by (bit_vector);
            self.v[15] = if self.v[x] & 0x80 != 0 { 1 } else { 0 };
            let shifted = self.v[x];
            assert(shifted << 1u8 == (shifted * 2) % 256) by (bit_vector);
            self.v[x] = shifted << 1;
        }
        assert(self.v@ =~= exec_alu(m, opcode).v);
        assert(self@ =~= exec_alu(m, opcode));
    }

    /// The `FXNN` operations.
    fn execute_misc(&mut self, opcode: u16)
        requires
            2 <= old(self)@.pc <= 4097,
            op_kind(opcode) == 0xF,
            op_fault(old(self)@, opcode) is None,
        ensures
            final(self)@ == exec_misc(old(self)@, opcode),
    {
        let ghost m = self@;
        let op = self.nn(opcode);
        let x = self.x(opcode);
        if op == 0x07 {
            // VX = delay timer (FX07)
            self.v[x] = self.delay_timer;
        } else if op == 0x15 {
            // delay timer = VX (FX15)
            self.delay_timer = self.v[x];
        } else if op == 0x18 {
            // sound timer = VX (FX18)
            self.sound_timer = self.v[x];
        } else if op == 0x1E {
            // I += VX (FX1E), VF = I beyond 0x0FFF
            self.i += self.v[x] as u16;
            self.v[15] = if self.i > 0x0FFF { 1 } else { 0 };
        } else if op == 0x0A {
            // wait for a key (FX0A): the lowest key held down, else repeat
            let mut pressed = false;
            let mut k: usize = 0;
            while k < 16 && !pressed
                invariant
                    k <= 16,
                    x == op_x(opcode),
                    x < 16,
                    pressed ==> k < 16 && first_key(m.key, 0) == k && self@ == with_v(m, x as int, k as u8),
                    !pressed ==> self@ == m && first_key(m.key, 0) == first_key(m.key, k as int),
                decreases 16 - k + (if pressed { 0int } else { 1int }),
            {
                if self.key[k] {
                    self.v[x] = k as u8;
                    pressed = true;
                } else {
                    k += 1;
                }
            }
            if !pressed {
                self.pc -= 2;
            }
        } else if op == 0x29 {
            // I = address of the font glyph for the low nibble of VX (FX29)
            let full = self.v[x];
            let vx = full & 0x0F;
            assert(full & 0x0F == full % 16) by (bit_vector);
            let index = 0x050 + vx * 5;
            self.i = index as u16;
        } else if op == 0x33 {
            // binary-coded decimal of VX at I, I+1, I+2 (FX33)
            let mut vx = self.v[x];
            let mut k: u16 = 3;
            while k > 0
                invariant
                    k <= 3,
                    m.i as int + 2 < 4096,
                    self@ == (Machine { memory: self@.memory, ..m }),
                    self@.memory.len() == 4096,
                    vx as int == m.v[op_x(opcode)] as int / (if k == 3 { 1int } else if k == 2 { 10int } else if k == 1 { 100int } else { 1000int }),
                    forall|a: int| 0 <= a < 4096 ==> #[trigger] self@.memory[a] == (
                        if a == m.i as int + 2 && k <= 2 { m.v[op_x(opcode)] % 10 }
                        else if a == m.i as int + 1 && k <= 1 { (m.v[op_x(opcode)] / 10) % 10 }
                        else if a == m.i as int && k == 0 { m.v[op_x(opcode)] / 100 }
                        else { m.memory[a] }),
                decreases k,
            {
                k -= 1;
                let digit = vx % 10;
                vx /= 10;
                self.memory[(self.i + k) as usize] = digit;
            }
            assert(self@.memory =~= exec_misc(m, opcode).memory);
        } else if op == 0x55 {
            // store V0..=VX at I.. (FX55)
            let mut k: usize = 0;
            while k <= x
                invariant
                    x < 16,
                    x == op_x(opcode),
                    k <= x + 1,
                    m.i as int + x < 4096,
                    self@ == (Machine { memory: self@.memory, ..m }),
                    self@.memory.len() == 4096,
                    forall|a: int| 0 <= a < 4096 ==> #[trigger] self@.memory[a] == (
                        if m.i as int <= a < m.i as int + k { m.v[a - m.i] } else { m.memory[a] }),
                decreases x + 1 - k,
            {
                let vi = self.v[k];
                self.memory[self.i as usize + k] = vi;
                k += 1;
            }
            if self.change_idx {
                self.i += (x + 1) as u16;
            }
            assert(self@.memory =~= exec_misc(m, opcode).memory);
        } else if op == 0x65 {
            // load V0..=VX from I.. (FX65)
            let mut k: usize = 0;
            while k <= x
                invariant
                    x < 16,
                    x == op_x(opcode),
                    k <= x + 1,
                    m.i as int + x < 4096,
                    self@ == (Machine { v: self@.v, ..m }),
                    self@.v.len() == 16,
                    forall|j: int| 0 <= j < 16 ==> #[trigger] self@.v[j] == (
                        if j < k { m.memory[m.i + j] } else { m.v[j] }),
                decreases x + 1 - k,
            {
                let mem = self.memory[self.i as usize + k];
                self.v[k] = mem;
                k += 1;
            }
            if self.change_idx {
                self.i += (x + 1) as u16;
            }
            assert(self@.v =~= exec_misc(m, opcode).v);
        }
        assert(self@ =~= exec_misc(m, opcode));
    }
}

/// Whether `DXYN` has visited cell `k` once it has finished rows before `dy`
/// and columns before `dx` of row `dy`.
spec fn draw_done(m: Machine, w: u16, k: int, dy: int, dx: int) -> bool {
    let row = k / 64;
    let col = k % 64;
    row < draw_y(m, w) + dy || (row == draw_y(m, w) + dy && col < draw_x(m, w) + dx)
}

/// Whether the part of `DXYN` visited so far switched a pixel off.
spec fn draw_coll(m: Machine, w: u16, dy: int, dx: int) -> bool {
    exists|k: int|
        0 <= k < 2048 && #[trigger] sprite_pixel(m, w, k) && draw_done(m, w, k, dy, dx) && m.gfx[k]
}

proof fn lemma_cell(r: int, c: int)
    requires
        0 <= r < 32,
        0 <= c < 64,
    ensures
        (r * 64 + c) / 64 == r,
        (r * 64 + c) % 64 == c,
        0 <= r * 64 + c < 2048,
{
    assert((r * 64 + c) / 64 == r && (r * 64 + c) % 64 == c) by (nonlinear_arith)
        requires
            0 <= r < 32,
            0 <= c < 64,
    ;
}

impl Chip8 {
    /// Draws the 8xN sprite at `I` with XOR at `(VX % 64, VY % 32)`, clipping at
    /// the screen edges; `VF` tells whether a pixel was switched off (DXYN).
    fn draw(&mut self, opcode: u16)
        requires
            !(draw_rows(old(self)@, opcode) > 0 && old(self)@.i + draw_rows(old(self)@, opcode) - 1 >= 4096),
        ensures
            final(self)@ == draw(old(self)@, opcode),
    {
        let ghost m = self@;
        assert(m.v.len() == 16 && m.gfx.len() == 2048 && m.memory.len() == 4096) by {
            assert(self.v@.len() == 16 && self.gfx@.len() == 2048 && self.memory@.len() == 4096);
        }
        let vx = self.x(opcode);
        let vy = self.y(opcode);
        let n = self.n(opcode);
        let x = self.v[vx] % 64;
        let y = self.v[vy] % 32;
        self.v[15] = 0;
        let mut dy: u16 = 0;
        while dy < n && (y as u16 + dy) < 32
            invariant
                m.v.len() == 16 && m.gfx.len() == 2048 && m.memory.len() == 4096,
                x == draw_x(m, opcode),
                y == draw_y(m, opcode),
                n == op_n(opcode),
                dy <= n,
                y + dy <= 32,
                !(draw_rows(m, opcode) > 0 && m.i + draw_rows(m, opcode) - 1 >= 4096),
                self@ == (Machine { gfx: self@.gfx, v: self@.v, ..m }),
                self@.v == m.v.update(15, if draw_coll(m, opcode, dy as int, 0) { 1u8 } else { 0u8 }),
                self@.gfx.len() == 2048,
                forall|k: int| 0 <= k < 2048 ==> #[trigger] self@.gfx[k] == (m.gfx[k] != (
                    sprite_pixel(m, opcode, k) && draw_done(m, opcode, k, dy as int, 0))),
            decreases n - dy,
        {
            let row = self.memory[(self.i + dy) as usize];
            let mut dx: u8 = 0;
            while dx < 8 && x + dx < 64
                invariant
                    m.v.len() == 16 && m.gfx.len() == 2048 && m.memory.len() == 4096,
                    x == draw_x(m, opcode),
                    y == draw_y(m, opcode),
                    n == op_n(opcode),
                    dy < n,
                    y + dy < 32,
                    dx <= 8,
                    row == m.memory[m.i + dy],
                    self@ == (Machine { gfx: self@.gfx, v: self@.v, ..m }),
                    self@.v == m.v.update(15, if draw_coll(m, opcode, dy as int, dx as int) { 1u8 } else { 0u8 }),
                    self@.gfx.len() == 2048,
                    forall|k: int| 0 <= k < 2048 ==> #[trigger] self@.gfx[k] == (m.gfx[k] != (
                        sprite_pixel(m, opcode, k) && draw_done(m, opcode, k, dy as int, dx as int))),
                decreases 8 - dx,
            {
                let pixel = self.get_bit(row, dx);
                let ghost k0 = (y + dy) * 64 + (x + dx);
                proof {
                    lemma_cell(y + dy, x + dx);
                    assert(sprite_pixel(m, opcode, k0) == pixel);
                    assert forall|k: int| 0 <= k < 2048 implies
                        #[trigger] draw_done(m, opcode, k, dy as int, dx + 1) ==
                            (draw_done(m, opcode, k, dy as int, dx as int) || k == k0) by {
                        if k != k0 && k / 64 == y + dy && k % 64 == x + dx {
                            assert(k == (k / 64) * 64 + k % 64);
                        }
                    }
                }
                let ghost was_on = self@.gfx[k0];

                proof {
                    assert(!draw_done(m, opcode, k0, dy as int, dx as int));
                    assert(was_on == m.gfx[k0]);
                    if pixel && was_on {
                        assert(sprite_pixel(m, opcode, k0) && draw_done(m, opcode, k0, dy as int, dx + 1) && m.gfx[k0]);
                        assert(draw_coll(m, opcode, dy as int, dx + 1));
                    } else {
                        if draw_coll(m, opcode, dy as int, dx as int) {
                            let kw = choose|k: int| 0 <= k < 2048 && #[trigger] sprite_pixel(m, opcode, k)
                                && draw_done(m, opcode, k, dy as int, dx as int) && m.gfx[k];
                            assert(draw_done(m, opcode, kw, dy as int, dx + 1));
                        }
                        if draw_coll(m, opcode, dy as int, dx + 1) {
                            let kw = choose|k: int| 0 <= k < 2048 && #[trigger] sprite_pixel(m, opcode, k)
                                && draw_done(m, opcode, k, dy as int, dx + 1) && m.gfx[k];
                            assert(kw != k0);
                            assert(draw_done(m, opcode, kw, dy as int, dx as int));
                        }
                        assert(draw_coll(m, opcode, dy as int, dx + 1) == draw_coll(m, opcode, dy as int, dx as int));
                    }
                }
                if pixel {
                    let gfx_i = (y as u16 + dy) * 64 + (x + dx) as u16;
                    if self.gfx[gfx_i as usize] {
                        self.v[15] = 1;
                    }
                    self.gfx[gfx_i as usize] = self.gfx[gfx_i as usize] ^ pixel;
                }
                dx += 1;
                assert(self@.v =~= m.v.update(15, if draw_coll(m, opcode, dy as int, dx as int) { 1u8 } else { 0u8 }));
            }
            proof {
                assert forall|k: int| 0 <= k < 2048 implies
                    (#[trigger] sprite_pixel(m, opcode, k) && draw_done(m, opcode, k, dy as int, dx as int)) ==
                        (sprite_pixel(m, opcode, k) && draw_done(m, opcode, k, dy + 1, 0)) by {
                }
                assert(draw_coll(m, opcode, dy as int, dx as int) == draw_coll(m, opcode, dy + 1, 0));
            }
            dy += 1;
        }
        proof {
            assert forall|k: int| 0 <= k < 2048 implies
                (#[trigger] sprite_pixel(m, opcode, k) && draw_done(m, opcode, k, dy as int, 0)) ==
                    sprite_pixel(m, opcode, k) by {
            }
            assert(draw_coll(m, opcode, dy as int, 0) == draw_collides(m, opcode));
        }
        assert(self@.gfx =~= draw(m, opcode).gfx);
        assert(self@ =~= draw(m, opcode));
    }
}

// ---------------------------------------------------------------------------
// Laws

/// Sprites are drawn with XOR: drawing the same sprite twice in a row restores
/// the display, and the second draw reports a collision exactly when the first
/// one switched some pixel on (in particular, on a clear screen, whenever the
/// sprite has a visible pixel). `X` and `Y` must not name `VF`, which the first
/// draw overwrites.
pub proof fn lemma_draw_twice_erases(m: Machine, w: u16)
    requires
        m.v.len() == 16,
        m.gfx.len() == 2048,
        op_x(w) != 15,
        op_y(w) != 15,
    ensures
        draw(draw(m, w), w).gfx == m.gfx,
        draw(draw(m, w), w).v[15] == (if exists|k: int| 0 <= k < 2048 && #[trigger] sprite_pixel(m, w, k) && !m.gfx[k] { 1u8 } else { 0u8 }),
{
    let m1 = draw(m, w);
    let m2 = draw(m1, w);
    assert(m1.v[op_x(w)] == m.v[op_x(w)]);
    assert(m1.v[op_y(w)] == m.v[op_y(w)]);
    assert forall|k: int| 0 <= k < 2048 implies #[trigger] sprite_pixel(m1, w, k) == sprite_pixel(m, w, k) by {}
    assert(m2.gfx =~= m.gfx);
    if exists|k: int| 0 <= k < 2048 && #[trigger] sprite_pixel(m, w, k) && !m.gfx[k] {
        let k = choose|k: int| 0 <= k < 2048 && #[trigger] sprite_pixel(m, w, k) && !m.gfx[k];
        assert(sprite_pixel(m1, w, k) && m1.gfx[k]);
    } else {
        if draw_collides(m1, w) {
            let k = choose|k: int| 0 <= k < 2048 && #[trigger] sprite_pixel(m1, w, k) && m1.gfx[k];
            assert(sprite_pixel(m, w, k));
        }
    }
}

/// Two cycles that run the same sprite instruction `DXYN`: the display is
/// as it was before the first, and `VF` tells whether the first one switched
/// some pixel on. `X` and `Y` must not name `VF`.
pub proof fn lemma_draw_twice_cycles(m: Machine, r1: u8, r2: u8)
    requires
        sized(m),
        m.pc + 1 < 4096,
        op_kind(fetch(m)) == 0xD,
        op_x(fetch(m)) != 15,
        op_y(fetch(m)) != 15,
        fetch(step(m, r1)) == fetch(m),
    ensures
        step(step(m, r1), r2).gfx == m.gfx,
        step(step(m, r1), r2).v[15] == (if exists|k: int|
            0 <= k < 2048 && #[trigger] sprite_pixel(m, fetch(m), k) && !m.gfx[k] { 1u8 } else { 0u8 }),
{
    let w = fetch(m);
    let a = advance(m);
    lemma_draw_twice_erases(a, w);
    let m1 = step(m, r1);
    assert(m1 == draw(a, w));
    assert(step(m1, r2) == draw(advance(m1), w));
    assert forall|k: int| 0 <= k < 2048 implies #[trigger] sprite_pixel(advance(m1), w, k) == sprite_pixel(m1, w, k) by {}
    assert forall|k: int| 0 <= k < 2048 implies #[trigger] sprite_pixel(a, w, k) == sprite_pixel(m, w, k) by {}
    let b = advance(m1);
    if draw_collides(b, w) {
        let k = choose|k: int| 0 <= k < 2048 && #[trigger] sprite_pixel(b, w, k) && b.gfx[k];
        assert(sprite_pixel(m1, w, k) && m1.gfx[k]);
    }
    if draw_collides(m1, w) {
        let k = choose|k: int| 0 <= k < 2048 && #[trigger] sprite_pixel(m1, w, k) && m1.gfx[k];
        assert(sprite_pixel(b, w, k) && b.gfx[k]);
    }
    assert(draw_collides(b, w) == draw_collides(m1, w));
    assert(step(m1, r2).gfx =~= draw(m1, w).gfx);
}

/// A call (`2NNN`) followed by a return (`00EE`) resumes right after the call,
/// with the stack as it was; neither instruction faults while the stack has room.
pub proof fn lemma_call_then_return(m: Machine, w: u16, r1: u8, r2: u8)
    requires
        op_kind(w) == 0x2,
        m.sp < 16,
        m.pc <= 0xFFFF,
        m.stack.len() == 16,
    ensures
        op_fault(m, w) is None,
        op_fault(exec_op(m, w, r1), 0x00EE) is None,
        exec_op(exec_op(m, w, r1), 0x00EE, r2).pc == m.pc,
        exec_op(exec_op(m, w, r1), 0x00EE, r2).sp == m.sp,
        exec_op(exec_op(m, w, r1), 0x00EE, r2).stack.take(m.sp as int) == m.stack.take(m.sp as int),
{
    let m1 = exec_op(m, w, r1);
    assert(op_kind(0x00EE) == 0);
    assert(m1.stack.take(m.sp as int) =~= m.stack.take(m.sp as int));
}

/// Two cycles: a call `2NNN`, then the return `00EE` found at `NNN`. The
/// call pushes the address after it and jumps; the return resumes right after
/// the call, with the stack as it was.
pub proof fn lemma_call_then_return_cycles(m: Machine, r1: u8, r2: u8)
    requires
        sized(m),
        m.pc + 1 < 4096,
        op_kind(fetch(m)) == 0x2,
        m.sp < 16,
        op_nnn(fetch(m)) + 1 < 4096,
        fetch(step(m, r1)) == 0x00EE,
    ensures
        cycle_fault(m) is None,
        step(m, r1).pc == op_nnn(fetch(m)),
        step(m, r1).sp == m.sp + 1,
        step(m, r1).stack[m.sp as int] == m.pc + 2,
        cycle_fault(step(m, r1)) is None,
        step(step(m, r1), r2).pc == m.pc + 2,
        step(step(m, r1), r2).sp == m.sp,
        step(step(m, r1), r2).stack.take(m.sp as int) == m.stack.take(m.sp as int),
{
    let w = fetch(m);
    lemma_call_then_return(advance(m), w, r1, r2);
    assert(op_kind(0x00EE) == 0);
    let m1 = step(m, r1);
    assert(m1.stack.take(m.sp as int) =~= m.stack.take(m.sp as int));
}

/// Every cycle that can run keeps the stack pointer within the call stack.
pub proof fn lemma_stack_stays_bounded(m: Machine, r: u8)
    requires
        m.sp <= 16,
        cycle_fault(m) is None,
    ensures
        step(m, r).sp <= 16,
{
}

/// `FX33` stores the three decimal digits of `VX`, most significant first.
pub proof fn lemma_bcd_digits(m: Machine, w: u16)
    requires
        op_kind(w) == 0xF,
        op_nn(w) == 0x33,
        m.memory.len() == 4096,
        m.i + 2 < 4096,
    ensures
        ({
            let mem = exec_op(m, w, 0).memory;
            let i = m.i as int;
            &&& mem[i] < 10 && mem[i + 1] < 10 && mem[i + 2] < 10
            &&& mem[i] * 100 + mem[i + 1] * 10 + mem[i + 2] == m.v[op_x(w)]
        }),
{
}

/// Storing `V0..=VX` at `I` (`FX55`) and loading them back from the same
/// address (`FX65`) leaves the registers as they were.
pub proof fn lemma_store_then_load(m: Machine, x: u16)
    requires
        x < 16,
        m.memory.len() == 4096,
        m.v.len() == 16,
        m.i as int + x < 4096,
    ensures
        ({
            let stored = exec_op(m, (0xF055 + x * 256) as u16, 0);
            let loaded = exec_op(Machine { i: m.i, ..stored }, (0xF065 + x * 256) as u16, 0);
            loaded.v == m.v
        }),
{
    let ws = (0xF055 + x * 256) as u16;
    let wl = (0xF065 + x * 256) as u16;
    assert(op_kind(ws) == 0xF && op_nn(ws) == 0x55 && op_x(ws) == x);
    assert(op_kind(wl) == 0xF && op_nn(wl) == 0x65 && op_x(wl) == x);
    let stored = exec_op(m, ws, 0);
    let loaded = exec_op(Machine { i: m.i, ..stored }, wl, 0);
    assert(loaded.v =~= m.v);
}

/// After a ROM is loaded, `FX29` points `I` at the 5-byte glyph of the
/// hexadecimal digit in the low nibble of `VX`.
pub proof fn lemma_font_glyph(m: Machine, rom: Seq<u8>, w: u16)
    requires
        op_kind(w) == 0xF,
        op_nn(w) == 0x29,
        m.memory == loaded_memory(m.memory, rom),
        m.v.len() == 16,
    ensures
        ({
            let after = exec_op(m, w, 0);
            let d = m.v[op_x(w)] as int % 16;
            &&& after.i == 0x50 + d * 5
            &&& after.memory.subrange(after.i as int, after.i + 5) == font_glyphs().subrange(d * 5, d * 5 + 5)
        }),
{
    let after = exec_op(m, w, 0);
    let d = m.v[op_x(w)] as int % 16;
    assert(after.memory.subrange(after.i as int, after.i + 5) =~= font_glyphs().subrange(d * 5, d * 5 + 5));
}

/// While no key is held down, a cycle that fetches `FX0A` leaves the machine
/// exactly as it was, so the program waits on that instruction.
pub proof fn lemma_wait_for_key(m: Machine, r: u8)
    requires
        m.pc + 1 < 4096,
        op_kind(fetch(m)) == 0xF,
        op_nn(fetch(m)) == 0x0A,
        forall|k: int| 0 <= k < 16 ==> !m.key[k],
    ensures
        cycle_fault(m) is None,
        step(m, r) == m,
{
    assert(first_key(m.key, 0) == 16) by {
        reveal_with_fuel(first_key, 17);
    }
}

/// `8XY4` leaves the carry in `VF`: the new `VX` plus 256 times `VF` is the
/// sum of the old `VX` and `VY` (for `X` other than `F`).
pub proof fn lemma_add_carry(m: Machine, w: u16)
    requires
        op_kind(w) == 0x8,
        op_n(w) == 0x4,
        op_x(w) != 15,
        m.v.len() == 16,
    ensures
        exec_op(m, w, 0).v[op_x(w)] + 256 * exec_op(m, w, 0).v[15] == m.v[op_x(w)] + m.v[op_y(w)],
{
    assert(exec_op(m, w, 0) == exec_alu(m, w));
}

/// `8XY5` leaves the no-borrow flag in `VF`: it is 1 exactly when `VX >= VY`,
/// and the new `VX` is `VX - VY`, wrapped into a byte (for `X` other than `F`).
pub proof fn lemma_sub_borrow(m: Machine, w: u16)
    requires
        op_kind(w) == 0x8,
        op_n(w) == 0x5,
        op_x(w) != 15,
        m.v.len() == 16,
    ensures
        exec_op(m, w, 0).v[15] == (if m.v[op_x(w)] >= m.v[op_y(w)] { 1u8 } else { 0u8 }),
        exec_op(m, w, 0).v[op_x(w)] == m.v[op_x(w)] - m.v[op_y(w)] + 256 * (1 - exec_op(m, w, 0).v[15]),
{
    assert(exec_op(m, w, 0) == exec_alu(m, w));
}

/// `8XY7` sets `VX` to `VY - VX` and leaves the no-borrow flag in `VF`: it is
/// 1 exactly when `VY >= VX`, and the result wraps around by 256 otherwise.
/// The other registers keep their values.
pub proof fn lemma_subn_borrow(m: Machine, w: u16, r: u8)
    requires
        op_kind(w) == 0x8,
        op_n(w) == 0x7,
        op_x(w) != 15,
        m.v.len() == 16,
    ensures
        exec_op(m, w, r).v[15] == (if m.v[op_y(w)] >= m.v[op_x(w)] { 1u8 } else { 0u8 }),
        exec_op(m, w, r).v[op_x(w)] == m.v[op_y(w)] - m.v[op_x(w)] + 256 * (1 - exec_op(m, w, r).v[15]),
        forall|k: int| 0 <= k < 15 && k != op_x(w) ==> #[trigger] exec_op(m, w, r).v[k] == m.v[k],
{
    assert(exec_op(m, w, r) == exec_alu(m, w));
    let vx = m.v[op_x(w)] as int;
    let vy = m.v[op_y(w)] as int;
    if vy >= vx {
        assert((vy - vx + 256) % 256 == vy - vx);
    } else {
        assert((vy - vx + 256) % 256 == vy - vx + 256);
    }
}

/// The other `8XYN` register operations, for `X` other than `F`: `8XY0`
/// copies `VY`; `8XY1`/`8XY2`/`8XY3` combine `VX` and `VY` bit by bit (or,
/// and, exclusive or) and clear `VF`; `8XY6` halves the source register (`VY`
/// when shifts read `VY`, else `VX`) with the bit shifted out in `VF`;
/// `8XYE` doubles it, modulo 256, with the bit shifted out in `VF`.
pub proof fn lemma_alu_ops(m: Machine, w: u16, r: u8)
    requires
        op_kind(w) == 0x8,
        op_x(w) != 15,
        m.v.len() == 16,
    ensures
        ({
            let after = exec_op(m, w, r).v;
            let vx = m.v[op_x(w)];
            let vy = m.v[op_y(w)];
            let src = if m.shift_y { vy } else { vx };
            &&& op_n(w) == 0x0 ==> after[op_x(w)] == vy
            &&& op_n(w) == 0x1 ==> after[op_x(w)] == vx | vy && after[15] == 0
            &&& op_n(w) == 0x2 ==> after[op_x(w)] == vx & vy && after[15] == 0
            &&& op_n(w) == 0x3 ==> after[op_x(w)] == vx ^ vy && after[15] == 0
            &&& op_n(w) == 0x6 ==> after[op_x(w)] * 2 + after[15] == src && after[15] <= 1
            &&& op_n(w) == 0xE ==> after[op_x(w)] + 256 * after[15] == src * 2 && after[15] <= 1
        }),
{
    assert(exec_op(m, w, r) == exec_alu(m, w));
    let vx = m.v[op_x(w)];
    let vy = m.v[op_y(w)];
    let src = if m.shift_y { vy } else { vx };
    assert(src / 2 * 2 + src % 2 == src);
    assert((src as int * 2) % 256 + 256 * (if src >= 128 { 1int } else { 0int }) == src * 2);
}

/// After loading, memory `0x050`-`0x09F` holds the standard CHIP-8 font:
/// for each hexadecimal digit, five rows whose high four bits are the
/// pixels of the digit's shape (written here in binary, one row per byte)
/// and whose low four bits are clear.
pub proof fn lemma_standard_font(mem: Seq<u8>, rom: Seq<u8>)
    ensures
        loaded_memory(mem, rom).subrange(0x50, 0xA0) == seq![
            0b1111_0000u8, 0b1001_0000, 0b1001_0000, 0b1001_0000, 0b1111_0000, // 0
            0b0010_0000, 0b0110_0000, 0b0010_0000, 0b0010_0000, 0b0111_0000, // 1
            0b1111_0000, 0b0001_0000, 0b1111_0000, 0b1000_0000, 0b1111_0000, // 2
            0b1111_0000, 0b0001_0000, 0b1111_0000, 0b0001_0000, 0b1111_0000, // 3
            0b1001_0000, 0b1001_0000, 0b1111_0000, 0b0001_0000, 0b0001_0000, // 4
            0b1111_0000, 0b1000_0000, 0b1111_0000, 0b0001_0000, 0b1111_0000, // 5
            0b1111_0000, 0b1000_0000, 0b1111_0000, 0b1001_0000, 0b1111_0000, // 6
            0b1111_0000, 0b0001_0000, 0b0010_0000, 0b0100_0000, 0b0100_0000, // 7
            0b1111_0000, 0b1001_0000, 0b1111_0000, 0b1001_0000, 0b1111_0000, // 8
            0b1111_0000, 0b1001_0000, 0b1111_0000, 0b0001_0000, 0b1111_0000, // 9
            0b1111_0000, 0b1001_0000, 0b1111_0000, 0b1001_0000, 0b1001_0000, // A
            0b1110_0000, 0b1001_0000, 0b1110_0000, 0b1001_0000, 0b1110_0000, // B
            0b1111_0000, 0b1000_0000, 0b1000_0000, 0b1000_0000, 0b1111_0000, // C
            0b1110_0000, 0b1001_0000, 0b1001_0000, 0b1001_0000, 0b1110_0000, // D
            0b1111_0000, 0b1000_0000, 0b1111_0000, 0b1000_0000, 0b1111_0000, // E
            0b1111_0000, 0b1000_0000, 0b1111_0000, 0b1000_0000, 0b1000_0000, // F
        ],
{
    assert(loaded_memory(mem, rom).subrange(0x50, 0xA0) =~= font_glyphs());
}
} // verus!
