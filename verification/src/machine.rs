//! The machine state and its executor.
//!
//! `Simulator` owns all CHIP-8 machine state: memory, registers, the call
//! stack, the framebuffer, the timers and the key pad. Its ghost view
//! `MachView` models that state with mathematical sequences, and every
//! instruction's effect is written down once, as the spec function
//! `spec_exec`; `spec_step` adds fetching and decoding on top. The public
//! methods promise to follow those spec functions exactly.

use crate::decode::{decode, spec_decode, Instruction};
use crate::Fault;
use crate::ProgramTooLarge;
use vstd::prelude::*;

verus! {

/// Bytes of addressable memory.
pub const RAM_SIZE: usize = 4096;

/// Number of general registers (V0 through VF).
pub const NUM_REGISTERS: usize = 16;

/// Framebuffer width in pixels.
pub const SCREEN_WIDTH: usize = 64;

/// Framebuffer height in pixels.
pub const SCREEN_HEIGHT: usize = 32;

/// Total framebuffer pixels, stored row-major.
pub const SCREEN_PIXELS: usize = 2048;

/// Maximum call-stack depth.
pub const STACK_DEPTH: usize = 16;

/// Number of keys on the pad.
pub const NUM_KEYS: usize = 16;

/// Address at which loaded programs start, and the initial program counter.
pub const START_PC: u16 = 0x200;

/// Largest loadable program: the memory above the program start address.
pub const MAX_PROGRAM_LEN: usize = 3584;

/// The mathematical model of the whole machine state.
///
/// `screen` is the framebuffer row-major: pixel `(px, py)` is entry
/// `py * 64 + px`. `script`/`script_next` model the injected randomness
/// source: `None` stands for the operating system's generator, `Some(s)`
/// for a scripted source that cycles through `s`.
#[verifier::ext_equal]
pub struct MachView {
    /// The 4096 memory bytes.
    pub ram: Seq<u8>,
    /// The 16 general registers V0 through VF.
    pub v: Seq<u8>,
    /// The 16-bit index register.
    pub i: u16,
    /// The program counter.
    pub pc: u16,
    /// Return addresses of the active calls, innermost last.
    pub stack: Seq<u16>,
    /// The framebuffer bits, row-major.
    pub screen: Seq<bool>,
    /// Whether the framebuffer changed since the last `consume_dirty`.
    pub gfx_changed: bool,
    /// The delay timer.
    pub delay_timer: u8,
    /// The sound timer.
    pub sound_timer: u8,
    /// Which keys are currently pressed.
    pub key: Seq<bool>,
    /// `Some(x)` while a `LD Vx, K` instruction waits for a key press.
    pub await_key: Option<u8>,
    /// The scripted random bytes, or `None` for the system generator.
    pub script: Option<Seq<u8>>,
    /// Position of the next scripted byte.
    pub script_next: int,
}

/// Well-formedness of a machine view: every component has its fixed size,
/// and the pending-key register and script position are in range.
pub open spec fn view_wf(m: MachView) -> bool {
    &&& m.ram.len() == RAM_SIZE
    &&& m.v.len() == NUM_REGISTERS
    &&& m.stack.len() <= STACK_DEPTH
    &&& m.screen.len() == SCREEN_PIXELS
    &&& m.key.len() == NUM_KEYS
    &&& (m.await_key matches Some(x) ==> x < 16)
    &&& (m.script matches Some(s) ==> (s.len() == 0 && m.script_next == 0) || (0 <= m.script_next
        < s.len()))
    &&& (m.script is None ==> m.script_next == 0)
}

/// The flag value VF receives: 1 for a set flag, 0 for a clear one.
pub open spec fn spec_flag(b: bool) -> u8 {
    if b {
        1
    } else {
        0
    }
}

/// The view with register `x` set to `val`.
pub open spec fn spec_with_v(m: MachView, x: int, val: u8) -> MachView {
    MachView { v: m.v.update(x, val), ..m }
}

/// The view with register `x` set to `val` and then VF set to the flag.
/// The flag write comes last: VF is never general-purpose, so a flag
/// outcome overwrites any value the instruction itself put there.
pub open spec fn spec_with_v_flag(m: MachView, x: int, val: u8, flag: bool) -> MachView {
    MachView { v: m.v.update(x, val).update(15, spec_flag(flag)), ..m }
}

/// The view after a conditional skip: the counter moves past one more
/// instruction when `cond` holds.
pub open spec fn spec_skip(m: MachView, cond: bool) -> MachView {
    if cond {
        MachView { pc: (m.pc + 2) as u16, ..m }
    } else {
        m
    }
}

/// The byte a scripted randomness source yields next (0 for an empty
/// script; unused when the source is the system generator).
pub open spec fn spec_script_byte(m: MachView) -> u8 {
    match m.script {
        Some(s) => if s.len() > 0 {
            s[m.script_next]
        } else {
            0
        },
        None => 0,
    }
}

/// The view with the scripted randomness source moved one byte forward,
/// cycling at the end of the script. The system source carries no state.
pub open spec fn spec_advance_script(m: MachView) -> MachView {
    match m.script {
        Some(s) => if s.len() > 0 {
            MachView { script_next: (m.script_next + 1) % (s.len() as int), ..m }
        } else {
            m
        },
        None => m,
    }
}

/// Whether the sprite of a `DRW Vx, Vy, n` covers pixel `(px, py)` with a
/// set bit. Sprite row `r` (read from memory at `I + r`) lands on screen
/// row `(Vy + r) mod 32`, and bit `c` (most significant first) of that
/// byte lands on screen column `(Vx + c) mod 64`; since `n < 32` and a row
/// is 8 bits wide, at most one sprite bit lands on any pixel.
pub open spec fn spec_sprite_bit(m: MachView, x: int, y: int, n: int, px: int, py: int) -> bool {
    let row = (py - m.v[y] % 32) % 32;
    let col = (px - m.v[x] % 64) % 64;
    row < n && col < 8 && (m.ram[m.i + row] >> ((7 - col) as u8)) & 1 == 1
}

/// Whether the sprite covers row-major pixel `p` with a set bit.
pub open spec fn spec_sprite_bit_at(m: MachView, x: int, y: int, n: int, p: int) -> bool {
    spec_sprite_bit(m, x, y, n, p % 64, p / 64)
}

/// The framebuffer after the sprite is XORed on.
pub open spec fn spec_draw_screen(m: MachView, x: int, y: int, n: int) -> Seq<bool> {
    Seq::new(SCREEN_PIXELS as nat, |p: int| m.screen[p] != spec_sprite_bit_at(m, x, y, n, p))
}

/// Whether the draw turns any lit pixel off: a set sprite bit lands on a
/// lit pixel.
pub open spec fn spec_draw_collision(m: MachView, x: int, y: int, n: int) -> bool {
    exists|p: int|
        0 <= p < SCREEN_PIXELS && m.screen[p] && spec_sprite_bit_at(m, x, y, n, p)
}

/// The effect of `DRW Vx, Vy, n`: reading `n` sprite bytes past the end of
/// memory is a fault; otherwise the sprite is XORed onto the framebuffer,
/// VF reports a collision, and the framebuffer is marked changed.
pub open spec fn spec_drw(m: MachView, x: int, y: int, n: int) -> Result<MachView, Fault> {
    if n > 0 && m.i + n > RAM_SIZE {
        Err(Fault::MemoryOutOfBounds)
    } else {
        Ok(
            MachView {
                screen: spec_draw_screen(m, x, y, n),
                v: m.v.update(15, spec_flag(spec_draw_collision(m, x, y, n))),
                gfx_changed: true,
                ..m
            },
        )
    }
}

/// The effect of one decoded instruction on a machine view whose counter
/// has already moved past the instruction. `b` is the byte drawn from the
/// randomness source; only `RND` reads it. A faulting instruction leaves
/// the view to the caller unchanged.
pub open spec fn spec_exec(m: MachView, inst: Instruction, b: u8) -> Result<MachView, Fault> {
    match inst {
        Instruction::Cls => Ok(
            MachView {
                screen: Seq::new(SCREEN_PIXELS as nat, |p: int| false),
                gfx_changed: true,
                ..m
            },
        ),
        Instruction::Ret => if m.stack.len() == 0 {
            Err(Fault::StackUnderflow)
        } else {
            Ok(MachView { pc: m.stack.last(), stack: m.stack.drop_last(), ..m })
        },
        Instruction::Jp(nnn) => Ok(MachView { pc: nnn, ..m }),
        Instruction::Call(nnn) => if m.stack.len() >= STACK_DEPTH {
            Err(Fault::StackOverflow)
        } else {
            Ok(MachView { stack: m.stack.push(m.pc), pc: nnn, ..m })
        },
        Instruction::SeByte(x, nn) => Ok(spec_skip(m, m.v[x as int] == nn)),
        Instruction::SneByte(x, nn) => Ok(spec_skip(m, m.v[x as int] != nn)),
        Instruction::SeReg(x, y) => Ok(spec_skip(m, m.v[x as int] == m.v[y as int])),
        Instruction::LdByte(x, nn) => Ok(spec_with_v(m, x as int, nn)),
        Instruction::AddByte(x, nn) => Ok(
            spec_with_v(m, x as int, ((m.v[x as int] + nn) % 256) as u8),
        ),
        Instruction::LdReg(x, y) => Ok(spec_with_v(m, x as int, m.v[y as int])),
        Instruction::OrReg(x, y) => Ok(spec_with_v(m, x as int, m.v[x as int] | m.v[y as int])),
        Instruction::AndReg(x, y) => Ok(spec_with_v(m, x as int, m.v[x as int] & m.v[y as int])),
        Instruction::XorReg(x, y) => Ok(spec_with_v(m, x as int, m.v[x as int] ^ m.v[y as int])),
        Instruction::AddReg(x, y) => Ok(
            spec_with_v_flag(
                m,
                x as int,
                ((m.v[x as int] + m.v[y as int]) % 256) as u8,
                m.v[x as int] + m.v[y as int] >= 256,
            ),
        ),
        Instruction::SubReg(x, y) => Ok(
            spec_with_v_flag(
                m,
                x as int,
                ((m.v[x as int] - m.v[y as int]) % 256) as u8,
                m.v[x as int] >= m.v[y as int],
            ),
        ),
        Instruction::Shr(x) => Ok(
            spec_with_v_flag(m, x as int, (m.v[x as int] / 2) as u8, m.v[x as int] % 2 == 1),
        ),
        Instruction::SubnReg(x, y) => Ok(
            spec_with_v_flag(
                m,
                x as int,
                ((m.v[y as int] - m.v[x as int]) % 256) as u8,
                m.v[y as int] >= m.v[x as int],
            ),
        ),
        Instruction::Shl(x) => Ok(
            spec_with_v_flag(
                m,
                x as int,
                ((m.v[x as int] * 2) % 256) as u8,
                m.v[x as int] >= 128,
            ),
        ),
        Instruction::SneReg(x, y) => Ok(spec_skip(m, m.v[x as int] != m.v[y as int])),
        Instruction::LdI(nnn) => Ok(MachView { i: nnn, ..m }),
        Instruction::JpV0(nnn) => Ok(MachView { pc: (nnn + m.v[0]) as u16, ..m }),
        Instruction::Rnd(x, nn) => Ok(spec_advance_script(spec_with_v(m, x as int, nn & b))),
        Instruction::Drw(x, y, n) => spec_drw(m, x as int, y as int, n as int),
        Instruction::Skp(x) => Ok(spec_skip(m, m.key[(m.v[x as int] % 16) as int])),
        Instruction::Sknp(x) => Ok(spec_skip(m, !m.key[(m.v[x as int] % 16) as int])),
        Instruction::LdVxDt(x) => Ok(spec_with_v(m, x as int, m.delay_timer)),
        Instruction::LdKey(x) => Ok(MachView { await_key: Some(x), ..m }),
        Instruction::LdDtVx(x) => Ok(MachView { delay_timer: m.v[x as int], ..m }),
        Instruction::LdStVx(x) => Ok(MachView { sound_timer: m.v[x as int], ..m }),
        Instruction::AddI(x) => Ok(
            MachView {
                i: ((m.i + m.v[x as int]) % 0x10000) as u16,
                v: m.v.update(15, spec_flag(m.i + m.v[x as int] >= 0x10000)),
                ..m
            },
        ),
        Instruction::LdFont(x) => Ok(MachView { i: (m.v[x as int] * 5) as u16, ..m }),
        Instruction::LdBcd(x) => if m.i + 2 >= RAM_SIZE {
            Err(Fault::MemoryOutOfBounds)
        } else {
            Ok(
                MachView {
                    ram: m.ram.update(m.i as int, ((m.v[x as int] / 100) % 10) as u8).update(
                        m.i + 1,
                        ((m.v[x as int] / 10) % 10) as u8,
                    ).update(m.i + 2, (m.v[x as int] % 10) as u8),
                    ..m
                },
            )
        },
        Instruction::StoreRegs(x) => if m.i + x >= RAM_SIZE {
            Err(Fault::MemoryOutOfBounds)
        } else {
            Ok(
                MachView {
                    ram: Seq::new(
                        RAM_SIZE as nat,
                        |j: int|
                            if m.i <= j <= m.i + x {
                                m.v[j - m.i]
                            } else {
                                m.ram[j]
                            },
                    ),
                    ..m
                },
            )
        },
        Instruction::LoadRegs(x) => if m.i + x >= RAM_SIZE {
            Err(Fault::MemoryOutOfBounds)
        } else {
            Ok(
                MachView {
                    v: Seq::new(
                        NUM_REGISTERS as nat,
                        |j: int|
                            if j <= x {
                                m.ram[m.i + j]
                            } else {
                                m.v[j]
                            },
                    ),
                    ..m
                },
            )
        },
    }
}

/// The opcode two consecutive memory bytes at the counter spell, big-endian.
pub open spec fn spec_opcode_at(m: MachView) -> u16 {
    (m.ram[m.pc as int] * 256 + m.ram[m.pc as int + 1]) as u16
}

/// The view after the fetch: the counter has moved past the instruction.
pub open spec fn spec_fetched(m: MachView) -> MachView {
    MachView { pc: (m.pc + 2) as u16, ..m }
}

/// One whole `step`: a no-op while a key is awaited; otherwise fetch,
/// decode and execute, where any fault leaves the state unchanged. `b` is
/// the byte drawn from the randomness source, read only by `RND`.
pub open spec fn spec_step(pre: MachView, b: u8) -> (MachView, Result<(), Fault>) {
    if pre.await_key is Some {
        (pre, Ok(()))
    } else if pre.pc + 1 >= RAM_SIZE {
        (pre, Err(Fault::MemoryOutOfBounds))
    } else {
        let op = spec_opcode_at(pre);
        match spec_decode(op) {
            None => (pre, Err(Fault::UnknownOpcode(op))),
            Some(inst) => match spec_exec(spec_fetched(pre), inst, b) {
                Ok(post) => (post, Ok(())),
                Err(f) => (pre, Err(f)),
            },
        }
    }
}

/// What `step` did, for the random byte `b`: the machine went from `pre`
/// to `post` and returned `r`, exactly as `spec_step` says.
pub open spec fn spec_step_matches(
    pre: MachView,
    post: MachView,
    r: Result<(), Fault>,
    b: u8,
) -> bool {
    post == spec_step(pre, b).0 && result_eq(r, spec_step(pre, b).1)
}

/// Equality of two `step` results: both succeeded, or both failed with
/// the same fault.
pub open spec fn result_eq(a: Result<(), Fault>, b: Result<(), Fault>) -> bool {
    ||| (a is Ok && b is Ok)
    ||| (a is Err && b is Err && a->Err_0 == b->Err_0)
}

/// What one executed instruction did, for the random byte `b`: success
/// transformed `pre` into `post` per `spec_exec`, and a fault left the
/// state unchanged.
pub open spec fn exec_outcome_for(
    pre: MachView,
    post: MachView,
    r: Result<(), Fault>,
    inst: Instruction,
    b: u8,
) -> bool {
    &&& (r is Ok ==> spec_exec(pre, inst, b) == Ok::<MachView, Fault>(post))
    &&& (r is Err ==> spec_exec(pre, inst, b) == Err::<MachView, Fault>(r->Err_0) && post == pre)
}

/// What one executed instruction did: it followed `spec_exec` for some
/// drawn byte, and for the scripted source's next byte in particular when
/// the source is scripted.
pub open spec fn exec_outcome(
    pre: MachView,
    post: MachView,
    r: Result<(), Fault>,
    inst: Instruction,
) -> bool {
    &&& exists|b: u8| exec_outcome_for(pre, post, r, inst, b)
    &&& (pre.script is Some ==> exec_outcome_for(pre, post, r, inst, spec_script_byte(pre)))
}

/// A timer value after one tick: down by one, floored at zero.
pub open spec fn spec_tick(t: u8) -> u8 {
    if t > 0 {
        (t - 1) as u8
    } else {
        0
    }
}

/// The view after a key event: the key's state is recorded and, when the
/// event is a press while a `LD Vx, K` waits, the key code is written to
/// the pending register and execution resumes. A release never resolves
/// the wait.
pub open spec fn spec_set_key(m: MachView, code: u8, pressed: bool) -> MachView {
    if pressed && m.await_key is Some {
        MachView {
            key: m.key.update(code as int, pressed),
            v: m.v.update(m.await_key->0 as int, code),
            await_key: None,
            ..m
        }
    } else {
        MachView { key: m.key.update(code as int, pressed), ..m }
    }
}

/// Byte `k` of the preloaded font table: 16 glyphs of 5 bytes each,
/// the hexadecimal digits 0 through F.
pub open spec fn spec_font_byte(k: int) -> u8 {
    // glyph 0
    if k == 0 { 0xF0
    } else if k == 1 { 0x90
    } else if k == 2 { 0x90
    } else if k == 3 { 0x90
    } else if k == 4 { 0xF0
    // glyph 1
    } else if k == 5 { 0x20
    } else if k == 6 { 0x60
    } else if k == 7 { 0x20
    } else if k == 8 { 0x20
    } else if k == 9 { 0x70
    // glyph 2
    } else if k == 10 { 0xF0
    } else if k == 11 { 0x10
    } else if k == 12 { 0xF0
    } else if k == 13 { 0x80
    } else if k == 14 { 0xF0
    // glyph 3
    } else if k == 15 { 0xF0
    } else if k == 16 { 0x10
    } else if k == 17 { 0xF0
    } else if k == 18 { 0x10
    } else if k == 19 { 0xF0
    // glyph 4
    } else if k == 20 { 0x90
    } else if k == 21 { 0x90
    } else if k == 22 { 0xF0
    } else if k == 23 { 0x10
    } else if k == 24 { 0x10
    // glyph 5
    } else if k == 25 { 0xF0
    } else if k == 26 { 0x80
    } else if k == 27 { 0xF0
    } else if k == 28 { 0x10
    } else if k == 29 { 0xF0
    // glyph 6
    } else if k == 30 { 0xF0
    } else if k == 31 { 0x80
    } else if k == 32 { 0xF0
    } else if k == 33 { 0x90
    } else if k == 34 { 0xF0
    // glyph 7
    } else if k == 35 { 0xF0
    } else if k == 36 { 0x10
    } else if k == 37 { 0x20
    } else if k == 38 { 0x40
    } else if k == 39 { 0x40
    // glyph 8
    } else if k == 40 { 0xF0
    } else if k == 41 { 0x90
    } else if k == 42 { 0xF0
    } else if k == 43 { 0x90
    } else if k == 44 { 0xF0
    // glyph 9
    } else if k == 45 { 0xF0
    } else if k == 46 { 0x90
    } else if k == 47 { 0xF0
    } else if k == 48 { 0x10
    } else if k == 49 { 0xF0
    // glyph A
    } else if k == 50 { 0xF0
    } else if k == 51 { 0x90
    } else if k == 52 { 0xF0
    } else if k == 53 { 0x90
    } else if k == 54 { 0x90
    // glyph B
    } else if k == 55 { 0xE0
    } else if k == 56 { 0x90
    } else if k == 57 { 0xE0
    } else if k == 58 { 0x90
    } else if k == 59 { 0xE0
    // glyph C
    } else if k == 60 { 0xF0
    } else if k == 61 { 0x80
    } else if k == 62 { 0x80
    } else if k == 63 { 0x80
    } else if k == 64 { 0xF0
    // glyph D
    } else if k == 65 { 0xE0
    } else if k == 66 { 0x90
    } else if k == 67 { 0x90
    } else if k == 68 { 0x90
    } else if k == 69 { 0xE0
    // glyph E
    } else if k == 70 { 0xF0
    } else if k == 71 { 0x80
    } else if k == 72 { 0xF0
    } else if k == 73 { 0x80
    } else if k == 74 { 0xF0
    // glyph F
    } else if k == 75 { 0xF0
    } else if k == 76 { 0x80
    } else if k == 77 { 0xF0
    } else if k == 78 { 0x80
    } else if k == 79 { 0x80
    } else { 0 }
}

/// Byte `k` of the font table, as executable code.
fn font_byte(k: usize) -> (b: u8)
    ensures
        b == spec_font_byte(k as int),
{
    // glyph 0
    if k == 0 { 0xF0
    } else if k == 1 { 0x90
    } else if k == 2 { 0x90
    } else if k == 3 { 0x90
    } else if k == 4 { 0xF0
    // glyph 1
    } else if k == 5 { 0x20
    } else if k == 6 { 0x60
    } else if k == 7 { 0x20
    } else if k == 8 { 0x20
    } else if k == 9 { 0x70
    // glyph 2
    } else if k == 10 { 0xF0
    } else if k == 11 { 0x10
    } else if k == 12 { 0xF0
    } else if k == 13 { 0x80
    } else if k == 14 { 0xF0
    // glyph 3
    } else if k == 15 { 0xF0
    } else if k == 16 { 0x10
    } else if k == 17 { 0xF0
    } else if k == 18 { 0x10
    } else if k == 19 { 0xF0
    // glyph 4
    } else if k == 20 { 0x90
    } else if k == 21 { 0x90
    } else if k == 22 { 0xF0
    } else if k == 23 { 0x10
    } else if k == 24 { 0x10
    // glyph 5
    } else if k == 25 { 0xF0
    } else if k == 26 { 0x80
    } else if k == 27 { 0xF0
    } else if k == 28 { 0x10
    } else if k == 29 { 0xF0
    // glyph 6
    } else if k == 30 { 0xF0
    } else if k == 31 { 0x80
    } else if k == 32 { 0xF0
    } else if k == 33 { 0x90
    } else if k == 34 { 0xF0
    // glyph 7
    } else if k == 35 { 0xF0
    } else if k == 36 { 0x10
    } else if k == 37 { 0x20
    } else if k == 38 { 0x40
    } else if k == 39 { 0x40
    // glyph 8
    } else if k == 40 { 0xF0
    } else if k == 41 { 0x90
    } else if k == 42 { 0xF0
    } else if k == 43 { 0x90
    } else if k == 44 { 0xF0
    // glyph 9
    } else if k == 45 { 0xF0
    } else if k == 46 { 0x90
    } else if k == 47 { 0xF0
    } else if k == 48 { 0x10
    } else if k == 49 { 0xF0
    // glyph A
    } else if k == 50 { 0xF0
    } else if k == 51 { 0x90
    } else if k == 52 { 0xF0
    } else if k == 53 { 0x90
    } else if k == 54 { 0x90
    // glyph B
    } else if k == 55 { 0xE0
    } else if k == 56 { 0x90
    } else if k == 57 { 0xE0
    } else if k == 58 { 0x90
    } else if k == 59 { 0xE0
    // glyph C
    } else if k == 60 { 0xF0
    } else if k == 61 { 0x80
    } else if k == 62 { 0x80
    } else if k == 63 { 0x80
    } else if k == 64 { 0xF0
    // glyph D
    } else if k == 65 { 0xE0
    } else if k == 66 { 0x90
    } else if k == 67 { 0x90
    } else if k == 68 { 0x90
    } else if k == 69 { 0xE0
    // glyph E
    } else if k == 70 { 0xF0
    } else if k == 71 { 0x80
    } else if k == 72 { 0xF0
    } else if k == 73 { 0x80
    } else if k == 74 { 0xF0
    // glyph F
    } else if k == 75 { 0xF0
    } else if k == 76 { 0x80
    } else if k == 77 { 0xF0
    } else if k == 78 { 0x80
    } else if k == 79 { 0x80
    } else { 0 }
}

/// The memory contents right after construction: the font table in the
/// first 80 bytes, zeroes above.
pub open spec fn spec_init_ram() -> Seq<u8> {
    Seq::new(
        RAM_SIZE as nat,
        |j: int|
            if j < 80 {
                spec_font_byte(j)
            } else {
                0u8
            },
    )
}

/// The machine state right after construction with randomness `script`.
pub open spec fn spec_init(script: Option<Seq<u8>>) -> MachView {
    MachView {
        ram: spec_init_ram(),
        v: Seq::new(NUM_REGISTERS as nat, |j: int| 0u8),
        i: 0,
        pc: START_PC,
        stack: Seq::empty(),
        screen: Seq::new(SCREEN_PIXELS as nat, |p: int| false),
        gfx_changed: false,
        delay_timer: 0,
        sound_timer: 0,
        key: Seq::new(NUM_KEYS as nat, |k: int| false),
        await_key: None,
        script,
        script_next: 0,
    }
}

/// The whole CHIP-8 machine: memory, registers, call stack, framebuffer,
/// timers, key pad and the injected randomness source.
pub struct Simulator {
    /// The 4096 memory bytes; the font table occupies the first 80.
    pub ram: Vec<u8>,
    /// The 16 general registers V0 through VF.
    pub v: Vec<u8>,
    /// The 16-bit index register.
    pub i: u16,
    /// The program counter.
    pub pc: u16,
    /// Return addresses of the active calls, innermost last.
    pub stack: Vec<u16>,
    /// The framebuffer bits, row-major: pixel `(px, py)` is `py * 64 + px`.
    pub screen: Vec<bool>,
    /// Whether the framebuffer changed since the last `consume_dirty`.
    pub gfx_changed: bool,
    /// The delay timer.
    pub delay_timer: u8,
    /// The sound timer.
    pub sound_timer: u8,
    /// Which keys are currently pressed.
    pub key: Vec<bool>,
    /// `Some(x)` while a `LD Vx, K` instruction waits for a key press.
    pub await_key: Option<u8>,
    /// Scripted random bytes for `RND`, or `None` to draw from the
    /// operating system's generator.
    pub rand_script: Option<Vec<u8>>,
    /// Position of the next scripted byte.
    pub rand_next: usize,
}

impl View for Simulator {
    type V = MachView;

    open spec fn view(&self) -> MachView {
        MachView {
            ram: self.ram@,
            v: self.v@,
            i: self.i,
            pc: self.pc,
            stack: self.stack@,
            screen: self.screen@,
            gfx_changed: self.gfx_changed,
            delay_timer: self.delay_timer,
            sound_timer: self.sound_timer,
            key: self.key@,
            await_key: self.await_key,
            script: match self.rand_script {
                Some(s) => Some(s@),
                None => None,
            },
            script_next: self.rand_next as int,
        }
    }
}

/// Relies on rand::random: draws one byte from the thread-local generator.
/// Nothing is promised of the value; every byte is a possible outcome.
#[verifier::external_body]
fn system_random_byte() -> u8 {
    rand::random::<u8>()
}

/// A vector of `count` zero bytes.
fn zero_bytes(count: usize) -> (r: Vec<u8>)
    ensures
        r@ == Seq::new(count as nat, |j: int| 0u8),
{
    let mut r: Vec<u8> = Vec::new();
    let mut k: usize = 0;
    while k < count
        invariant
            k <= count,
            r@ =~= Seq::new(k as nat, |j: int| 0u8),
        decreases count - k,
    {
        r.push(0u8);
        k += 1;
        proof {
            assert(r@ =~= Seq::new(k as nat, |j: int| 0u8));
        }
    }
    proof {
        assert(r@ =~= Seq::new(count as nat, |j: int| 0u8));
    }
    r
}

/// A vector of `count` cleared bits.
fn false_bits(count: usize) -> (r: Vec<bool>)
    ensures
        r@ == Seq::new(count as nat, |j: int| false),
{
    let mut r: Vec<bool> = Vec::new();
    let mut k: usize = 0;
    while k < count
        invariant
            k <= count,
            r@ =~= Seq::new(k as nat, |j: int| false),
        decreases count - k,
    {
        r.push(false);
        k += 1;
        proof {
            assert(r@ =~= Seq::new(k as nat, |j: int| false));
        }
    }
    proof {
        assert(r@ =~= Seq::new(count as nat, |j: int| false));
    }
    r
}

impl Simulator {
    /// Well-formedness: every component has its fixed size and the
    /// bookkeeping fields are in range. Constructed machines are
    /// well-formed and every method preserves it.
    pub open spec fn wf(&self) -> bool {
        view_wf(self@)
    }

    /// Builds a machine at power-on: font table in low memory, counter at
    /// the program start address, everything else cleared. `random_script`
    /// injects the randomness source for `RND`: `None` draws from the
    /// operating system, `Some(bytes)` cycles deterministically through
    /// `bytes`.
    pub fn new(random_script: Option<Vec<u8>>) -> (s: Simulator)
        ensures
            s.wf(),
            s@ == spec_init(
                match random_script {
                    Some(v) => Some(v@),
                    None => None,
                },
            ),
    {
        let mut ram: Vec<u8> = Vec::new();
        let mut k: usize = 0;
        while k < 80
            invariant
                k <= 80,
            ram@ =~= Seq::new(k as nat, |j: int| spec_font_byte(j)),
            decreases 80 - k,
        {
            ram.push(font_byte(k));
            k += 1;
            proof {
                assert(ram@ =~= Seq::new(k as nat, |j: int| spec_font_byte(j)));
            }
        }
        while k < RAM_SIZE
            invariant
                80 <= k <= RAM_SIZE,
                ram@ =~= Seq::new(
                    k as nat,
                    |j: int|
                        if j < 80 {
                            spec_font_byte(j)
                        } else {
                            0u8
                        },
                ),
            decreases RAM_SIZE - k,
        {
            ram.push(0u8);
            k += 1;
            proof {
                assert(ram@ =~= Seq::new(
                    k as nat,
                    |j: int|
                        if j < 80 {
                            spec_font_byte(j)
                        } else {
                            0u8
                        },
                ));
            }
        }
        let s = Simulator {
            ram,
            v: zero_bytes(NUM_REGISTERS),
            i: 0,
            pc: START_PC,
            stack: Vec::new(),
            screen: false_bits(SCREEN_PIXELS),
            gfx_changed: false,
            delay_timer: 0,
            sound_timer: 0,
            key: false_bits(NUM_KEYS),
            await_key: None,
            rand_script: random_script,
            rand_next: 0,
        };
        proof {
            assert(s@ =~= spec_init(
                match random_script {
                    Some(v) => Some(v@),
                    None => None,
                },
            ));
        }
        s
    }

    /// Copies `program` into memory at the program start address. A
    /// program over 3584 bytes does not fit and is rejected whole with
    /// `ProgramTooLarge`, leaving memory untouched.
    pub fn load_program(&mut self, program: &[u8]) -> (r: Result<(), ProgramTooLarge>)
        requires
            old(self).wf(),
        ensures
            final(self).wf(),
            r is Ok <==> program@.len() <= MAX_PROGRAM_LEN,
            r is Ok ==> final(self)@ == (MachView {
                ram: Seq::new(
                    RAM_SIZE as nat,
                    |j: int|
                        if START_PC <= j < START_PC + program@.len() {
                            program@[j - START_PC]
                        } else {
                            old(self)@.ram[j]
                        },
                ),
                ..old(self)@
            }),
            r is Err ==> final(self)@ == old(self)@,
    {
        if program.len() > MAX_PROGRAM_LEN {
            return Err(ProgramTooLarge);
        }
        let base: usize = START_PC as usize;
        let mut k: usize = 0;
        while k < program.len()
            invariant
                old(self).wf(),
                k <= program@.len(),
                program@.len() <= MAX_PROGRAM_LEN,
                self.ram@ =~= Seq::new(
                    RAM_SIZE as nat,
                    |j: int|
                        if START_PC <= j < START_PC + k {
                            program@[j - START_PC]
                        } else {
                            old(self)@.ram[j]
                        },
                ),
                self.v == old(self).v,
                self.i == old(self).i,
                self.pc == old(self).pc,
                self.stack == old(self).stack,
                self.screen == old(self).screen,
                self.gfx_changed == old(self).gfx_changed,
                self.delay_timer == old(self).delay_timer,
                self.sound_timer == old(self).sound_timer,
                self.key == old(self).key,
                self.await_key == old(self).await_key,
                self.rand_script == old(self).rand_script,
                self.rand_next == old(self).rand_next,
                base == START_PC as usize,
            decreases program@.len() - k,
        {
            self.ram[base + k] = program[k];
            k += 1;
            proof {
                assert(self.ram@ =~= Seq::new(
                    RAM_SIZE as nat,
                    |j: int|
                        if START_PC <= j < START_PC + k {
                            program@[j - START_PC]
                        } else {
                            old(self)@.ram[j]
                        },
                ));
            }
        }
        proof {
            assert(self@ =~= (MachView {
                ram: Seq::new(
                    RAM_SIZE as nat,
                    |j: int|
                        if START_PC <= j < START_PC + program@.len() {
                            program@[j - START_PC]
                        } else {
                            old(self)@.ram[j]
                        },
                ),
                ..old(self)@
            }));
        }
        Ok(())
    }

    /// Ticks both timers once: each goes down by one and floors at zero.
    /// The surrounding loop calls this at a steady 60Hz, independent of
    /// the instruction rate.
    pub fn tick_timers(&mut self)
        requires
            old(self).wf(),
        ensures
            final(self).wf(),
            final(self)@ == (MachView {
                delay_timer: spec_tick(old(self)@.delay_timer),
                sound_timer: spec_tick(old(self)@.sound_timer),
                ..old(self)@
            }),
    {
        if self.delay_timer > 0 {
            self.delay_timer = self.delay_timer - 1;
        }
        if self.sound_timer > 0 {
            self.sound_timer = self.sound_timer - 1;
        }
        proof {
            assert(self@ =~= (MachView {
                delay_timer: spec_tick(old(self)@.delay_timer),
                sound_timer: spec_tick(old(self)@.sound_timer),
                ..old(self)@
            }));
        }
    }

    /// Records a key press or release. A press delivered while a
    /// `LD Vx, K` instruction waits stores the key code in the pending
    /// register and resumes execution; a release never resolves the wait.
    pub fn set_key_state(&mut self, code: u8, pressed: bool)
        requires
            old(self).wf(),
            code < 16,
        ensures
            final(self).wf(),
            final(self)@ == spec_set_key(old(self)@, code, pressed),
    {
        self.key[code as usize] = pressed;
        if pressed {
            if let Some(x) = self.await_key {
                self.v[x as usize] = code;
                self.await_key = None;
            }
        }
        proof {
            assert(self@ =~= spec_set_key(old(self)@, code, pressed));
        }
    }

    /// Returns a copy of the framebuffer, row-major: pixel `(px, py)` is
    /// entry `py * 64 + px`.
    pub fn framebuffer_snapshot(&self) -> (r: Vec<bool>)
        requires
            self.wf(),
        ensures
            r@ == self@.screen,
    {
        let mut r: Vec<bool> = Vec::new();
        let mut k: usize = 0;
        while k < SCREEN_PIXELS
            invariant
                self.wf(),
                k <= SCREEN_PIXELS,
                r@ =~= self@.screen.subrange(0, k as int),
            decreases SCREEN_PIXELS - k,
        {
            r.push(self.screen[k]);
            k += 1;
            proof {
                assert(r@ =~= self@.screen.subrange(0, k as int));
            }
        }
        proof {
            assert(r@ =~= self@.screen);
        }
        r
    }

    /// Reports whether the framebuffer changed since the last call, and
    /// acknowledges it: the dirty flag is cleared only here, never by the
    /// core itself.
    pub fn consume_dirty(&mut self) -> (r: bool)
        requires
            old(self).wf(),
        ensures
            final(self).wf(),
            r == old(self)@.gfx_changed,
            final(self)@ == (MachView { gfx_changed: false, ..old(self)@ }),
    {
        let r = self.gfx_changed;
        self.gfx_changed = false;
        proof {
            assert(self@ =~= (MachView { gfx_changed: false, ..old(self)@ }));
        }
        r
    }
}

/// Every instruction but `RND` ignores the drawn byte, so what held of one
/// byte holds of all.
proof fn lemma_exec_outcome_all_bytes(pre: MachView, post: MachView, r: Result<(), Fault>, inst: Instruction)
    requires
        !(inst is Rnd),
        exec_outcome_for(pre, post, r, inst, 0),
    ensures
        exec_outcome(pre, post, r, inst),
{
    assert forall|b: u8| exec_outcome_for(pre, post, r, inst, b) by {
        assert(spec_exec(pre, inst, b) == spec_exec(pre, inst, 0));
    }
    assert(exec_outcome_for(pre, post, r, inst, 0));
}

/// Lifts what one executed instruction did to what the whole `step` did,
/// given that the instruction was the one fetched and decoded at the
/// counter.
proof fn lemma_step_lift(pre: MachView, inst: Instruction, r: Result<(), Fault>, post: MachView, b: u8)
    requires
        pre.await_key is None,
        pre.pc + 1 < RAM_SIZE,
        spec_decode(spec_opcode_at(pre)) == Some(inst),
        r is Ok ==> spec_exec(spec_fetched(pre), inst, b) == Ok::<MachView, Fault>(post),
        r is Err ==> spec_exec(spec_fetched(pre), inst, b) == Err::<MachView, Fault>(r->Err_0)
            && post == pre,
    ensures
        spec_step_matches(pre, post, r, b),
{
    if r is Ok {
        assert(spec_step(pre, b).0 == post);
        assert(spec_step(pre, b).1 is Ok);
    } else {
        assert(spec_step(pre, b).0 == pre);
        assert(spec_step(pre, b).1 == Err::<(), Fault>(r->Err_0));
        assert(post == pre);
    }
    assert(spec_step_matches(pre, post, r, b));
}

impl Simulator {
    /// Draws the next byte from the randomness source: the scripted
    /// source yields its next byte and moves forward; the system source
    /// yields an arbitrary byte.
    fn next_random(&mut self) -> (b: u8)
        requires
            old(self).wf(),
        ensures
            final(self).wf(),
            final(self)@ == spec_advance_script(old(self)@),
            old(self)@.script is Some ==> b == spec_script_byte(old(self)@),
    {
        let script_len: usize = match &self.rand_script {
            None => 0,
            Some(bytes) => bytes.len(),
        };
        let b: u8 = match &self.rand_script {
            None => system_random_byte(),
            Some(bytes) => {
                if bytes.len() == 0 {
                    0
                } else {
                    bytes[self.rand_next]
                }
            },
        };
        if script_len > 0 {
            self.rand_next = (self.rand_next + 1) % script_len;
        }
        proof {
            assert(self@ =~= spec_advance_script(old(self)@));
        }
        b
    }

    /// `CLS`: clears every framebuffer pixel and marks the framebuffer
    /// changed.
    fn op_00e0(&mut self)
        requires
            old(self).wf(),
        ensures
            final(self).wf(),
            exec_outcome(old(self)@, final(self)@, Ok(()), Instruction::Cls),
    {
        let ghost pre = self@;
        let mut p: usize = 0;
        while p < SCREEN_PIXELS
            invariant
                p <= SCREEN_PIXELS,
                view_wf(pre),
                self@ == (MachView { screen: self@.screen, ..pre }),
                self@.screen.len() == SCREEN_PIXELS,
                forall|q: int| 0 <= q < p ==> !self@.screen[q],
                forall|q: int| p <= q < SCREEN_PIXELS ==> self@.screen[q] == pre.screen[q],
            decreases SCREEN_PIXELS - p,
        {
            self.screen[p] = false;
            p += 1;
            proof {
                assert(self@ =~= (MachView { screen: self@.screen, ..pre }));
            }
        }
        self.gfx_changed = true;
        proof {
            assert(self@.screen =~= Seq::new(SCREEN_PIXELS as nat, |q: int| false));
            assert(self@ =~= (MachView {
                screen: Seq::new(SCREEN_PIXELS as nat, |q: int| false),
                gfx_changed: true,
                ..pre
            }));
            assert(exec_outcome_for(pre, self@, Ok(()), Instruction::Cls, 0));
            lemma_exec_outcome_all_bytes(pre, self@, Ok(()), Instruction::Cls);
        }
    }

    /// `RET`: pops the innermost return address into the counter, or
    /// faults with `StackUnderflow` when no call is active.
    fn op_00ee(&mut self) -> (r: Result<(), Fault>)
        requires
            old(self).wf(),
        ensures
            final(self).wf(),
            exec_outcome(old(self)@, final(self)@, r, Instruction::Ret),
    {
        let ghost pre = self@;
        match self.stack.pop() {
            None => {
                proof {
                    assert(self@ =~= pre);
                    assert(exec_outcome_for(pre, self@, Err::<(), Fault>(Fault::StackUnderflow), Instruction::Ret, 0));
                    lemma_exec_outcome_all_bytes(pre, self@, Err(Fault::StackUnderflow), Instruction::Ret);
                }
                Err(Fault::StackUnderflow)
            },
            Some(addr) => {
                self.pc = addr;
                proof {
                    assert(self@ =~= (MachView { pc: pre.stack.last(), stack: pre.stack.drop_last(), ..pre }));
                    assert(exec_outcome_for(pre, self@, Ok(()), Instruction::Ret, 0));
                    lemma_exec_outcome_all_bytes(pre, self@, Ok(()), Instruction::Ret);
                }
                Ok(())
            },
        }
    }

    /// `JP addr`: the counter jumps to `addr`.
    fn op_1nnn(&mut self, nnn: u16)
        requires
            old(self).wf(),
        ensures
            final(self).wf(),
            exec_outcome(old(self)@, final(self)@, Ok(()), Instruction::Jp(nnn)),
    {
        self.pc = nnn;
        proof {
            assert(self@ =~= (MachView { pc: nnn, ..old(self)@ }));
            assert(exec_outcome_for(old(self)@, self@, Ok(()), Instruction::Jp(nnn), 0));
            lemma_exec_outcome_all_bytes(old(self)@, self@, Ok(()), Instruction::Jp(nnn));
        }
    }

    /// `CALL addr`: pushes the return address and jumps, or faults with
    /// `StackOverflow` when 16 calls are already active.
    fn op_2nnn(&mut self, nnn: u16) -> (r: Result<(), Fault>)
        requires
            old(self).wf(),
        ensures
            final(self).wf(),
            exec_outcome(old(self)@, final(self)@, r, Instruction::Call(nnn)),
    {
        let ghost pre = self@;
        if self.stack.len() >= STACK_DEPTH {
            proof {
                assert(exec_outcome_for(pre, self@, Err::<(), Fault>(Fault::StackOverflow), Instruction::Call(nnn), 0));
                lemma_exec_outcome_all_bytes(pre, self@, Err(Fault::StackOverflow), Instruction::Call(nnn));
            }
            return Err(Fault::StackOverflow);
        }
        let here = self.pc;
        self.stack.push(here);
        self.pc = nnn;
        proof {
            assert(self@ =~= (MachView { stack: pre.stack.push(pre.pc), pc: nnn, ..pre }));
            assert(exec_outcome_for(pre, self@, Ok(()), Instruction::Call(nnn), 0));
            lemma_exec_outcome_all_bytes(pre, self@, Ok(()), Instruction::Call(nnn));
        }
        Ok(())
    }

    /// `SE Vx, byte`: skips the next instruction when `Vx == nn`.
    fn op_3xnn(&mut self, x: u8, nn: u8)
        requires
            old(self).wf(),
            x < 16,
            old(self).pc + 2 <= u16::MAX,
        ensures
            final(self).wf(),
            exec_outcome(old(self)@, final(self)@, Ok(()), Instruction::SeByte(x, nn)),
    {
        if self.v[x as usize] == nn {
            self.pc = self.pc + 2;
        }
        proof {
            assert(self@ =~= spec_skip(old(self)@, old(self)@.v[x as int] == nn));
            assert(exec_outcome_for(old(self)@, self@, Ok(()), Instruction::SeByte(x, nn), 0));
            lemma_exec_outcome_all_bytes(old(self)@, self@, Ok(()), Instruction::SeByte(x, nn));
        }
    }

    /// `SNE Vx, byte`: skips the next instruction when `Vx != nn`.
    fn op_4xnn(&mut self, x: u8, nn: u8)
        requires
            old(self).wf(),
            x < 16,
            old(self).pc + 2 <= u16::MAX,
        ensures
            final(self).wf(),
            exec_outcome(old(self)@, final(self)@, Ok(()), Instruction::SneByte(x, nn)),
    {
        if self.v[x as usize] != nn {
            self.pc = self.pc + 2;
        }
        proof {
            assert(self@ =~= spec_skip(old(self)@, old(self)@.v[x as int] != nn));
            assert(exec_outcome_for(old(self)@, self@, Ok(()), Instruction::SneByte(x, nn), 0));
            lemma_exec_outcome_all_bytes(old(self)@, self@, Ok(()), Instruction::SneByte(x, nn));
        }
    }

    /// `SE Vx, Vy`: skips the next instruction when `Vx == Vy`.
    fn op_5xy0(&mut self, x: u8, y: u8)
        requires
            old(self).wf(),
            x < 16,
            y < 16,
            old(self).pc + 2 <= u16::MAX,
        ensures
            final(self).wf(),
            exec_outcome(old(self)@, final(self)@, Ok(()), Instruction::SeReg(x, y)),
    {
        if self.v[x as usize] == self.v[y as usize] {
            self.pc = self.pc + 2;
        }
        proof {
            assert(self@ =~= spec_skip(old(self)@, old(self)@.v[x as int] == old(self)@.v[y as int]));
            assert(exec_outcome_for(old(self)@, self@, Ok(()), Instruction::SeReg(x, y), 0));
            lemma_exec_outcome_all_bytes(old(self)@, self@, Ok(()), Instruction::SeReg(x, y));
        }
    }

    /// `LD Vx, byte`: `Vx <- nn`.
    fn op_6xnn(&mut self, x: u8, nn: u8)
        requires
            old(self).wf(),
            x < 16,
        ensures
            final(self).wf(),
            exec_outcome(old(self)@, final(self)@, Ok(()), Instruction::LdByte(x, nn)),
    {
        self.v[x as usize] = nn;
        proof {
            assert(self@ =~= spec_with_v(old(self)@, x as int, nn));
            assert(exec_outcome_for(old(self)@, self@, Ok(()), Instruction::LdByte(x, nn), 0));
            lemma_exec_outcome_all_bytes(old(self)@, self@, Ok(()), Instruction::LdByte(x, nn));
        }
    }

    /// `ADD Vx, byte`: `Vx <- Vx + nn` wrapping, with no flag effect.
    fn op_7xnn(&mut self, x: u8, nn: u8)
        requires
            old(self).wf(),
            x < 16,
        ensures
            final(self).wf(),
            exec_outcome(old(self)@, final(self)@, Ok(()), Instruction::AddByte(x, nn)),
    {
        let sum: u16 = self.v[x as usize] as u16 + nn as u16;
        self.v[x as usize] = (sum % 256) as u8;
        proof {
            assert(self@ =~= spec_with_v(old(self)@, x as int, ((old(self)@.v[x as int] + nn) % 256) as u8));
            assert(exec_outcome_for(old(self)@, self@, Ok(()), Instruction::AddByte(x, nn), 0));
            lemma_exec_outcome_all_bytes(old(self)@, self@, Ok(()), Instruction::AddByte(x, nn));
        }
    }

    /// `LD Vx, Vy`: `Vx <- Vy`.
    fn op_8xy0(&mut self, x: u8, y: u8)
        requires
            old(self).wf(),
            x < 16,
            y < 16,
        ensures
            final(self).wf(),
            exec_outcome(old(self)@, final(self)@, Ok(()), Instruction::LdReg(x, y)),
    {
        self.v[x as usize] = self.v[y as usize];
        proof {
            assert(self@ =~= spec_with_v(old(self)@, x as int, old(self)@.v[y as int]));
            assert(exec_outcome_for(old(self)@, self@, Ok(()), Instruction::LdReg(x, y), 0));
            lemma_exec_outcome_all_bytes(old(self)@, self@, Ok(()), Instruction::LdReg(x, y));
        }
    }

    /// `OR Vx, Vy`: `Vx <- Vx | Vy`.
    fn op_8xy1(&mut self, x: u8, y: u8)
        requires
            old(self).wf(),
            x < 16,
            y < 16,
        ensures
            final(self).wf(),
            exec_outcome(old(self)@, final(self)@, Ok(()), Instruction::OrReg(x, y)),
    {
        self.v[x as usize] = self.v[x as usize] | self.v[y as usize];
        proof {
            assert(self@ =~= spec_with_v(old(self)@, x as int, old(self)@.v[x as int] | old(self)@.v[y as int]));
            assert(exec_outcome_for(old(self)@, self@, Ok(()), Instruction::OrReg(x, y), 0));
            lemma_exec_outcome_all_bytes(old(self)@, self@, Ok(()), Instruction::OrReg(x, y));
        }
    }

    /// `AND Vx, Vy`: `Vx <- Vx & Vy`.
    fn op_8xy2(&mut self, x: u8, y: u8)
        requires
            old(self).wf(),
            x < 16,
            y < 16,
        ensures
            final(self).wf(),
            exec_outcome(old(self)@, final(self)@, Ok(()), Instruction::AndReg(x, y)),
    {
        self.v[x as usize] = self.v[x as usize] & self.v[y as usize];
        proof {
            assert(self@ =~= spec_with_v(old(self)@, x as int, old(self)@.v[x as int] & old(self)@.v[y as int]));
            assert(exec_outcome_for(old(self)@, self@, Ok(()), Instruction::AndReg(x, y), 0));
            lemma_exec_outcome_all_bytes(old(self)@, self@, Ok(()), Instruction::AndReg(x, y));
        }
    }

    /// `XOR Vx, Vy`: `Vx <- Vx ^ Vy`.
    fn op_8xy3(&mut self, x: u8, y: u8)
        requires
            old(self).wf(),
            x < 16,
            y < 16,
        ensures
            final(self).wf(),
            exec_outcome(old(self)@, final(self)@, Ok(()), Instruction::XorReg(x, y)),
    {
        self.v[x as usize] = self.v[x as usize] ^ self.v[y as usize];
        proof {
            assert(self@ =~= spec_with_v(old(self)@, x as int, old(self)@.v[x as int] ^ old(self)@.v[y as int]));
            assert(exec_outcome_for(old(self)@, self@, Ok(()), Instruction::XorReg(x, y), 0));
            lemma_exec_outcome_all_bytes(old(self)@, self@, Ok(()), Instruction::XorReg(x, y));
        }
    }

    /// `ADD Vx, Vy`: the 9-bit sum; `Vx` takes the low byte, VF the carry.
    fn op_8xy4(&mut self, x: u8, y: u8)
        requires
            old(self).wf(),
            x < 16,
            y < 16,
        ensures
            final(self).wf(),
            exec_outcome(old(self)@, final(self)@, Ok(()), Instruction::AddReg(x, y)),
    {
        let sum: u16 = self.v[x as usize] as u16 + self.v[y as usize] as u16;
        self.v[x as usize] = (sum % 256) as u8;
        self.v[15] = if sum >= 256 {
            1
        } else {
            0
        };
        proof {
            assert(self@ =~= spec_with_v_flag(
                old(self)@,
                x as int,
                ((old(self)@.v[x as int] + old(self)@.v[y as int]) % 256) as u8,
                old(self)@.v[x as int] + old(self)@.v[y as int] >= 256,
            ));
            assert(exec_outcome_for(old(self)@, self@, Ok(()), Instruction::AddReg(x, y), 0));
            lemma_exec_outcome_all_bytes(old(self)@, self@, Ok(()), Instruction::AddReg(x, y));
        }
    }

    /// `SUB Vx, Vy`: `Vx <- Vx - Vy` wrapping; VF takes 1 exactly when
    /// there is no borrow (`Vx >= Vy`).
    fn op_8xy5(&mut self, x: u8, y: u8)
        requires
            old(self).wf(),
            x < 16,
            y < 16,
        ensures
            final(self).wf(),
            exec_outcome(old(self)@, final(self)@, Ok(()), Instruction::SubReg(x, y)),
    {
        let a: u8 = self.v[x as usize];
        let b: u8 = self.v[y as usize];
        let diff: u16 = (a as u16 + 256 - b as u16) % 256;
        self.v[x as usize] = diff as u8;
        self.v[15] = if a >= b {
            1
        } else {
            0
        };
        proof {
            vstd::arithmetic::div_mod::lemma_mod_multiples_vanish(1, a - b, 256);
            assert(self@ =~= spec_with_v_flag(
                old(self)@,
                x as int,
                ((old(self)@.v[x as int] - old(self)@.v[y as int]) % 256) as u8,
                old(self)@.v[x as int] >= old(self)@.v[y as int],
            ));
            assert(exec_outcome_for(old(self)@, self@, Ok(()), Instruction::SubReg(x, y), 0));
            lemma_exec_outcome_all_bytes(old(self)@, self@, Ok(()), Instruction::SubReg(x, y));
        }
    }

    /// `SHR Vx`: VF captures the least-significant bit of `Vx` before the
    /// shift; `Vx` takes the shifted value.
    fn op_8xy6(&mut self, x: u8)
        requires
            old(self).wf(),
            x < 16,
        ensures
            final(self).wf(),
            exec_outcome(old(self)@, final(self)@, Ok(()), Instruction::Shr(x)),
    {
        let a: u8 = self.v[x as usize];
        self.v[x as usize] = a / 2;
        self.v[15] = if a % 2 == 1 {
            1
        } else {
            0
        };
        proof {
            assert(self@ =~= spec_with_v_flag(
                old(self)@,
                x as int,
                (old(self)@.v[x as int] / 2) as u8,
                old(self)@.v[x as int] % 2 == 1,
            ));
            assert(exec_outcome_for(old(self)@, self@, Ok(()), Instruction::Shr(x), 0));
            lemma_exec_outcome_all_bytes(old(self)@, self@, Ok(()), Instruction::Shr(x));
        }
    }

    /// `SUBN Vx, Vy`: `Vx <- Vy - Vx` wrapping; VF takes 1 exactly when
    /// there is no borrow (`Vy >= Vx`).
    fn op_8xy7(&mut self, x: u8, y: u8)
        requires
            old(self).wf(),
            x < 16,
            y < 16,
        ensures
            final(self).wf(),
            exec_outcome(old(self)@, final(self)@, Ok(()), Instruction::SubnReg(x, y)),
    {
        let a: u8 = self.v[x as usize];
        let b: u8 = self.v[y as usize];
        let diff: u16 = (b as u16 + 256 - a as u16) % 256;
        self.v[x as usize] = diff as u8;
        self.v[15] = if b >= a {
            1
        } else {
            0
        };
        proof {
            vstd::arithmetic::div_mod::lemma_mod_multiples_vanish(1, b - a, 256);
            assert(self@ =~= spec_with_v_flag(
                old(self)@,
                x as int,
                ((old(self)@.v[y as int] - old(self)@.v[x as int]) % 256) as u8,
                old(self)@.v[y as int] >= old(self)@.v[x as int],
            ));
            assert(exec_outcome_for(old(self)@, self@, Ok(()), Instruction::SubnReg(x, y), 0));
            lemma_exec_outcome_all_bytes(old(self)@, self@, Ok(()), Instruction::SubnReg(x, y));
        }
    }

    /// `SHL Vx`: VF captures the most-significant bit of `Vx` before the
    /// shift; `Vx` takes the shifted value, truncated to a byte.
    fn op_8xye(&mut self, x: u8)
        requires
            old(self).wf(),
            x < 16,
        ensures
            final(self).wf(),
            exec_outcome(old(self)@, final(self)@, Ok(()), Instruction::Shl(x)),
    {
        let a: u8 = self.v[x as usize];
        self.v[x as usize] = ((a as u16 * 2) % 256) as u8;
        self.v[15] = if a >= 128 {
            1
        } else {
            0
        };
        proof {
            assert(self@ =~= spec_with_v_flag(
                old(self)@,
                x as int,
                ((old(self)@.v[x as int] * 2) % 256) as u8,
                old(self)@.v[x as int] >= 128,
            ));
            assert(exec_outcome_for(old(self)@, self@, Ok(()), Instruction::Shl(x), 0));
            lemma_exec_outcome_all_bytes(old(self)@, self@, Ok(()), Instruction::Shl(x));
        }
    }

    /// `SNE Vx, Vy`: skips the next instruction when `Vx != Vy`.
    fn op_9xy0(&mut self, x: u8, y: u8)
        requires
            old(self).wf(),
            x < 16,
            y < 16,
            old(self).pc + 2 <= u16::MAX,
        ensures
            final(self).wf(),
            exec_outcome(old(self)@, final(self)@, Ok(()), Instruction::SneReg(x, y)),
    {
        if self.v[x as usize] != self.v[y as usize] {
            self.pc = self.pc + 2;
        }
        proof {
            assert(self@ =~= spec_skip(old(self)@, old(self)@.v[x as int] != old(self)@.v[y as int]));
            assert(exec_outcome_for(old(self)@, self@, Ok(()), Instruction::SneReg(x, y), 0));
            lemma_exec_outcome_all_bytes(old(self)@, self@, Ok(()), Instruction::SneReg(x, y));
        }
    }

    /// `LD I, addr`: the index register takes `addr`.
    fn op_annn(&mut self, nnn: u16)
        requires
            old(self).wf(),
        ensures
            final(self).wf(),
            exec_outcome(old(self)@, final(self)@, Ok(()), Instruction::LdI(nnn)),
    {
        self.i = nnn;
        proof {
            assert(self@ =~= (MachView { i: nnn, ..old(self)@ }));
            assert(exec_outcome_for(old(self)@, self@, Ok(()), Instruction::LdI(nnn), 0));
            lemma_exec_outcome_all_bytes(old(self)@, self@, Ok(()), Instruction::LdI(nnn));
        }
    }

    /// `JP V0, addr`: the counter jumps to `addr + V0`.
    fn op_bnnn(&mut self, nnn: u16)
        requires
            old(self).wf(),
            nnn < 4096,
        ensures
            final(self).wf(),
            exec_outcome(old(self)@, final(self)@, Ok(()), Instruction::JpV0(nnn)),
    {
        self.pc = nnn + self.v[0] as u16;
        proof {
            assert(self@ =~= (MachView { pc: (nnn + old(self)@.v[0]) as u16, ..old(self)@ }));
            assert(exec_outcome_for(old(self)@, self@, Ok(()), Instruction::JpV0(nnn), 0));
            lemma_exec_outcome_all_bytes(old(self)@, self@, Ok(()), Instruction::JpV0(nnn));
        }
    }

    /// `RND Vx, byte`: `Vx` takes `nn` masked with a byte drawn from the
    /// randomness source.
    fn op_cxnn(&mut self, x: u8, nn: u8)
        requires
            old(self).wf(),
            x < 16,
        ensures
            final(self).wf(),
            exec_outcome(old(self)@, final(self)@, Ok(()), Instruction::Rnd(x, nn)),
    {
        let ghost pre = self@;
        let b = self.next_random();
        self.v[x as usize] = nn & b;
        proof {
            assert(self@ =~= spec_advance_script(spec_with_v(pre, x as int, nn & b)));
            assert(exec_outcome_for(pre, self@, Ok(()), Instruction::Rnd(x, nn), b));
            if pre.script is Some {
                assert(exec_outcome_for(pre, self@, Ok(()), Instruction::Rnd(x, nn), spec_script_byte(pre)));
            }
        }
    }

    /// `DRW Vx, Vy, n`: XORs an 8-wide, `n`-tall sprite read from memory
    /// at the index register onto the framebuffer at `(Vx, Vy)`, wrapping
    /// at the screen edges; VF reports whether any lit pixel was turned
    /// off. Reading the sprite past the end of memory is a fault.
    fn op_dxyn(&mut self, x: u8, y: u8, n: u8) -> (r: Result<(), Fault>)
        requires
            old(self).wf(),
            x < 16,
            y < 16,
            n < 16,
        ensures
            final(self).wf(),
            exec_outcome(old(self)@, final(self)@, r, Instruction::Drw(x, y, n)),
    {
        let ghost pre = self@;
        let ghost xi = x as int;
        let ghost yi = y as int;
        let ghost ni = n as int;
        if n > 0 && self.i as usize + n as usize > RAM_SIZE {
            proof {
                assert(exec_outcome_for(pre, self@, Err::<(), Fault>(Fault::MemoryOutOfBounds), Instruction::Drw(x, y, n), 0));
                lemma_exec_outcome_all_bytes(pre, self@, Err(Fault::MemoryOutOfBounds), Instruction::Drw(x, y, n));
            }
            return Err(Fault::MemoryOutOfBounds);
        }
        let vx: u8 = self.v[x as usize] % 64;
        let vy: u8 = self.v[y as usize] % 32;
        let mut collision: bool = false;
        let mut p: usize = 0;
        while p < SCREEN_PIXELS
            invariant
                p <= SCREEN_PIXELS,
                view_wf(pre),
                x < 16,
                y < 16,
                n < 16,
                vx == pre.v[xi] % 64,
                vy == pre.v[yi] % 32,
                vx < 64,
                vy < 32,
                xi == x as int,
                yi == y as int,
                ni == n as int,
                n > 0 ==> pre.i + n <= RAM_SIZE,
                self@ == (MachView { screen: self@.screen, ..pre }),
                self@.screen.len() == SCREEN_PIXELS,
                forall|q: int| p <= q < SCREEN_PIXELS ==> self@.screen[q] == pre.screen[q],
                forall|q: int| 0 <= q < p ==> self@.screen[q] == (pre.screen[q]
                    != spec_sprite_bit_at(pre, xi, yi, ni, q)),
                collision == exists|q: int|
                    0 <= q < p && pre.screen[q] && spec_sprite_bit_at(pre, xi, yi, ni, q),
            decreases SCREEN_PIXELS - p,
        {
            let ghost coll0 = collision;
            let px: usize = p % 64;
            let py: usize = p / 64;
            let row: usize = (py + 32 - vy as usize) % 32;
            let col: usize = (px + 64 - vx as usize) % 64;
            let ghost sbit = spec_sprite_bit_at(pre, xi, yi, ni, p as int);
            proof {
                vstd::arithmetic::div_mod::lemma_mod_multiples_vanish(1, py - vy, 32);
                vstd::arithmetic::div_mod::lemma_mod_multiples_vanish(1, px - vx, 64);
                assert(row == (py - pre.v[yi] % 32) % 32);
                assert(col == (px - pre.v[xi] % 64) % 64);
            }
            if row < n as usize && col < 8 {
                let sprite_byte: u8 = self.ram[self.i as usize + row];
                let bit: bool = (sprite_byte >> (7 - col) as u8) & 1 == 1;
                proof {
                    assert(bit == sbit);
                }
                if bit {
                    let prev: bool = self.screen[p];
                    if prev {
                        collision = true;
                    }
                    self.screen[p] = !prev;
                }
            } else {
                proof {
                    assert(!sbit);
                }
            }
            p += 1;
            proof {
                assert(self@ =~= (MachView { screen: self@.screen, ..pre }));
                if coll0 {
                    let q0 = choose|q: int|
                        0 <= q < p - 1 && pre.screen[q] && spec_sprite_bit_at(pre, xi, yi, ni, q);
                    assert(0 <= q0 < p && pre.screen[q0] && spec_sprite_bit_at(pre, xi, yi, ni, q0));
                } else if collision {
                    assert(0 <= p - 1 < p && pre.screen[p - 1] && spec_sprite_bit_at(pre, xi, yi, ni, p - 1));
                } else {
                    assert forall|q: int| 0 <= q < p implies !(pre.screen[q]
                        && spec_sprite_bit_at(pre, xi, yi, ni, q)) by {
                        if q < p - 1 {
                            assert(!(0 <= q < p - 1 && pre.screen[q] && spec_sprite_bit_at(pre, xi, yi, ni, q)));
                        }
                    }
                }
            }
        }
        self.v[15] = if collision {
            1
        } else {
            0
        };
        self.gfx_changed = true;
        proof {
            assert(self@.screen =~= spec_draw_screen(pre, xi, yi, ni));
            assert(collision == spec_draw_collision(pre, xi, yi, ni));
            assert(self@ =~= (MachView {
                screen: spec_draw_screen(pre, xi, yi, ni),
                v: pre.v.update(15, spec_flag(spec_draw_collision(pre, xi, yi, ni))),
                gfx_changed: true,
                ..pre
            }));
            assert(exec_outcome_for(pre, self@, Ok(()), Instruction::Drw(x, y, n), 0));
            lemma_exec_outcome_all_bytes(pre, self@, Ok(()), Instruction::Drw(x, y, n));
        }
        Ok(())
    }

    /// `SKP Vx`: skips the next instruction when the key numbered by the
    /// low nibble of `Vx` is pressed.
    fn op_ex9e(&mut self, x: u8)
        requires
            old(self).wf(),
            x < 16,
            old(self).pc + 2 <= u16::MAX,
        ensures
            final(self).wf(),
            exec_outcome(old(self)@, final(self)@, Ok(()), Instruction::Skp(x)),
    {
        let key_idx: usize = (self.v[x as usize] % 16) as usize;
        if self.key[key_idx] {
            self.pc = self.pc + 2;
        }
        proof {
            assert(self@ =~= spec_skip(old(self)@, old(self)@.key[(old(self)@.v[x as int] % 16) as int]));
            assert(exec_outcome_for(old(self)@, self@, Ok(()), Instruction::Skp(x), 0));
            lemma_exec_outcome_all_bytes(old(self)@, self@, Ok(()), Instruction::Skp(x));
        }
    }

    /// `SKNP Vx`: skips the next instruction when the key numbered by the
    /// low nibble of `Vx` is not pressed.
    fn op_exa1(&mut self, x: u8)
        requires
            old(self).wf(),
            x < 16,
            old(self).pc + 2 <= u16::MAX,
        ensures
            final(self).wf(),
            exec_outcome(old(self)@, final(self)@, Ok(()), Instruction::Sknp(x)),
    {
        let key_idx: usize = (self.v[x as usize] % 16) as usize;
        if !self.key[key_idx] {
            self.pc = self.pc + 2;
        }
        proof {
            assert(self@ =~= spec_skip(old(self)@, !old(self)@.key[(old(self)@.v[x as int] % 16) as int]));
            assert(exec_outcome_for(old(self)@, self@, Ok(()), Instruction::Sknp(x), 0));
            lemma_exec_outcome_all_bytes(old(self)@, self@, Ok(()), Instruction::Sknp(x));
        }
    }

    /// `LD Vx, DT`: `Vx` takes the delay timer.
    fn op_fx07(&mut self, x: u8)
        requires
            old(self).wf(),
            x < 16,
        ensures
            final(self).wf(),
            exec_outcome(old(self)@, final(self)@, Ok(()), Instruction::LdVxDt(x)),
    {
        self.v[x as usize] = self.delay_timer;
        proof {
            assert(self@ =~= spec_with_v(old(self)@, x as int, old(self)@.delay_timer));
            assert(exec_outcome_for(old(self)@, self@, Ok(()), Instruction::LdVxDt(x), 0));
            lemma_exec_outcome_all_bytes(old(self)@, self@, Ok(()), Instruction::LdVxDt(x));
        }
    }

    /// `LD Vx, K`: suspends execution until a key press arrives; the key
    /// code will be stored in `Vx` by `set_key_state`.
    fn op_fx0a(&mut self, x: u8)
        requires
            old(self).wf(),
            x < 16,
        ensures
            final(self).wf(),
            exec_outcome(old(self)@, final(self)@, Ok(()), Instruction::LdKey(x)),
    {
        self.await_key = Some(x);
        proof {
            assert(self@ =~= (MachView { await_key: Some(x), ..old(self)@ }));
            assert(exec_outcome_for(old(self)@, self@, Ok(()), Instruction::LdKey(x), 0));
            lemma_exec_outcome_all_bytes(old(self)@, self@, Ok(()), Instruction::LdKey(x));
        }
    }

    /// `LD DT, Vx`: the delay timer takes `Vx`.
    fn op_fx15(&mut self, x: u8)
        requires
            old(self).wf(),
            x < 16,
        ensures
            final(self).wf(),
            exec_outcome(old(self)@, final(self)@, Ok(()), Instruction::LdDtVx(x)),
    {
        self.delay_timer = self.v[x as usize];
        proof {
            assert(self@ =~= (MachView { delay_timer: old(self)@.v[x as int], ..old(self)@ }));
            assert(exec_outcome_for(old(self)@, self@, Ok(()), Instruction::LdDtVx(x), 0));
            lemma_exec_outcome_all_bytes(old(self)@, self@, Ok(()), Instruction::LdDtVx(x));
        }
    }

    /// `LD ST, Vx`: the sound timer takes `Vx`.
    fn op_fx18(&mut self, x: u8)
        requires
            old(self).wf(),
            x < 16,
        ensures
            final(self).wf(),
            exec_outcome(old(self)@, final(self)@, Ok(()), Instruction::LdStVx(x)),
    {
        self.sound_timer = self.v[x as usize];
        proof {
            assert(self@ =~= (MachView { sound_timer: old(self)@.v[x as int], ..old(self)@ }));
            assert(exec_outcome_for(old(self)@, self@, Ok(()), Instruction::LdStVx(x), 0));
            lemma_exec_outcome_all_bytes(old(self)@, self@, Ok(()), Instruction::LdStVx(x));
        }
    }

    /// `ADD I, Vx`: the 17-bit sum; the index register takes the low 16
    /// bits and VF the carry out of bit 16.
    fn op_fx1e(&mut self, x: u8)
        requires
            old(self).wf(),
            x < 16,
        ensures
            final(self).wf(),
            exec_outcome(old(self)@, final(self)@, Ok(()), Instruction::AddI(x)),
    {
        let sum: u32 = self.i as u32 + self.v[x as usize] as u32;
        self.i = (sum % 0x10000) as u16;
        self.v[15] = if sum >= 0x10000 {
            1
        } else {
            0
        };
        proof {
            assert(self@ =~= (MachView {
                i: ((old(self)@.i + old(self)@.v[x as int]) % 0x10000) as u16,
                v: old(self)@.v.update(15, spec_flag(old(self)@.i + old(self)@.v[x as int] >= 0x10000)),
                ..old(self)@
            }));
            assert(exec_outcome_for(old(self)@, self@, Ok(()), Instruction::AddI(x), 0));
            lemma_exec_outcome_all_bytes(old(self)@, self@, Ok(()), Instruction::AddI(x));
        }
    }

    /// `LD F, Vx`: the index register takes the address of the font glyph
    /// for digit `Vx`, five bytes per glyph.
    fn op_fx29(&mut self, x: u8)
        requires
            old(self).wf(),
            x < 16,
        ensures
            final(self).wf(),
            exec_outcome(old(self)@, final(self)@, Ok(()), Instruction::LdFont(x)),
    {
        self.i = self.v[x as usize] as u16 * 5;
        proof {
            assert(self@ =~= (MachView { i: (old(self)@.v[x as int] * 5) as u16, ..old(self)@ }));
            assert(exec_outcome_for(old(self)@, self@, Ok(()), Instruction::LdFont(x), 0));
            lemma_exec_outcome_all_bytes(old(self)@, self@, Ok(()), Instruction::LdFont(x));
        }
    }

    /// `LD B, Vx`: writes the hundreds, tens and ones digits of `Vx` to
    /// memory at `I`, `I+1`, `I+2`; a write past the end of memory is a
    /// fault.
    fn op_fx33(&mut self, x: u8) -> (r: Result<(), Fault>)
        requires
            old(self).wf(),
            x < 16,
        ensures
            final(self).wf(),
            exec_outcome(old(self)@, final(self)@, r, Instruction::LdBcd(x)),
    {
        let ghost pre = self@;
        if self.i as usize + 2 >= RAM_SIZE {
            proof {
                assert(exec_outcome_for(pre, self@, Err::<(), Fault>(Fault::MemoryOutOfBounds), Instruction::LdBcd(x), 0));
                lemma_exec_outcome_all_bytes(pre, self@, Err(Fault::MemoryOutOfBounds), Instruction::LdBcd(x));
            }
            return Err(Fault::MemoryOutOfBounds);
        }
        let vx: u8 = self.v[x as usize];
        let idx: usize = self.i as usize;
        self.ram[idx] = (vx / 100) % 10;
        self.ram[idx + 1] = (vx / 10) % 10;
        self.ram[idx + 2] = vx % 10;
        proof {
            assert(self@ =~= (MachView {
                ram: pre.ram.update(pre.i as int, ((pre.v[x as int] / 100) % 10) as u8).update(
                    pre.i + 1,
                    ((pre.v[x as int] / 10) % 10) as u8,
                ).update(pre.i + 2, (pre.v[x as int] % 10) as u8),
                ..pre
            }));
            assert(exec_outcome_for(pre, self@, Ok(()), Instruction::LdBcd(x), 0));
            lemma_exec_outcome_all_bytes(pre, self@, Ok(()), Instruction::LdBcd(x));
        }
        Ok(())
    }

    /// `LD [I], Vx`: copies registers `V0..=Vx` into memory starting at
    /// the index register; a write past the end of memory is a fault.
    fn op_fx55(&mut self, x: u8) -> (r: Result<(), Fault>)
        requires
            old(self).wf(),
            x < 16,
        ensures
            final(self).wf(),
            exec_outcome(old(self)@, final(self)@, r, Instruction::StoreRegs(x)),
    {
        let ghost pre = self@;
        if self.i as usize + x as usize >= RAM_SIZE {
            proof {
                assert(exec_outcome_for(pre, self@, Err::<(), Fault>(Fault::MemoryOutOfBounds), Instruction::StoreRegs(x), 0));
                lemma_exec_outcome_all_bytes(pre, self@, Err(Fault::MemoryOutOfBounds), Instruction::StoreRegs(x));
            }
            return Err(Fault::MemoryOutOfBounds);
        }
        let base: usize = self.i as usize;
        let mut reg: usize = 0;
        while reg < x as usize + 1
            invariant
                reg <= x as usize + 1,
                x < 16,
                view_wf(pre),
                base == pre.i,
                base + x < RAM_SIZE,
                self@ == (MachView { ram: self@.ram, ..pre }),
                self@.ram.len() == RAM_SIZE,
                self@.ram =~= Seq::new(
                    RAM_SIZE as nat,
                    |j: int|
                        if base <= j < base + reg {
                            pre.v[j - base]
                        } else {
                            pre.ram[j]
                        },
                ),
            decreases x as usize + 1 - reg,
        {
            self.ram[base + reg] = self.v[reg];
            reg += 1;
            proof {
                assert(self@ =~= (MachView { ram: self@.ram, ..pre }));
                assert(self@.ram =~= Seq::new(
                    RAM_SIZE as nat,
                    |j: int|
                        if base <= j < base + reg {
                            pre.v[j - base]
                        } else {
                            pre.ram[j]
                        },
                ));
            }
        }
        proof {
            assert(self@.ram =~= Seq::new(
                RAM_SIZE as nat,
                |j: int|
                    if pre.i <= j <= pre.i + x {
                        pre.v[j - pre.i]
                    } else {
                        pre.ram[j]
                    },
            ));
            assert(self@ =~= (MachView {
                ram: Seq::new(
                    RAM_SIZE as nat,
                    |j: int|
                        if pre.i <= j <= pre.i + x {
                            pre.v[j - pre.i]
                        } else {
                            pre.ram[j]
                        },
                ),
                ..pre
            }));
            assert(exec_outcome_for(pre, self@, Ok(()), Instruction::StoreRegs(x), 0));
            lemma_exec_outcome_all_bytes(pre, self@, Ok(()), Instruction::StoreRegs(x));
        }
        Ok(())
    }

    /// `LD Vx, [I]`: copies memory starting at the index register into
    /// registers `V0..=Vx`; a read past the end of memory is a fault.
    fn op_fx65(&mut self, x: u8) -> (r: Result<(), Fault>)
        requires
            old(self).wf(),
            x < 16,
        ensures
            final(self).wf(),
            exec_outcome(old(self)@, final(self)@, r, Instruction::LoadRegs(x)),
    {
        let ghost pre = self@;
        if self.i as usize + x as usize >= RAM_SIZE {
            proof {
                assert(exec_outcome_for(pre, self@, Err::<(), Fault>(Fault::MemoryOutOfBounds), Instruction::LoadRegs(x), 0));
                lemma_exec_outcome_all_bytes(pre, self@, Err(Fault::MemoryOutOfBounds), Instruction::LoadRegs(x));
            }
            return Err(Fault::MemoryOutOfBounds);
        }
        let base: usize = self.i as usize;
        let mut reg: usize = 0;
        while reg < x as usize + 1
            invariant
                reg <= x as usize + 1,
                x < 16,
                view_wf(pre),
                base == pre.i,
                base + x < RAM_SIZE,
                self@ == (MachView { v: self@.v, ..pre }),
                self@.v.len() == NUM_REGISTERS,
                self@.v =~= Seq::new(
                    NUM_REGISTERS as nat,
                    |j: int|
                        if 0 <= j < reg {
                            pre.ram[base + j]
                        } else {
                            pre.v[j]
                        },
                ),
            decreases x as usize + 1 - reg,
        {
            self.v[reg] = self.ram[base + reg];
            reg += 1;
            proof {
                assert(self@ =~= (MachView { v: self@.v, ..pre }));
                assert(self@.v =~= Seq::new(
                    NUM_REGISTERS as nat,
                    |j: int|
                        if 0 <= j < reg {
                            pre.ram[base + j]
                        } else {
                            pre.v[j]
                        },
                ));
            }
        }
        proof {
            assert(self@.v =~= Seq::new(
                NUM_REGISTERS as nat,
                |j: int|
                    if j <= x {
                        pre.ram[pre.i + j]
                    } else {
                        pre.v[j]
                    },
            ));
            assert(self@ =~= (MachView {
                v: Seq::new(
                    NUM_REGISTERS as nat,
                    |j: int|
                        if j <= x {
                            pre.ram[pre.i + j]
                        } else {
                            pre.v[j]
                        },
                ),
                ..pre
            }));
            assert(exec_outcome_for(pre, self@, Ok(()), Instruction::LoadRegs(x), 0));
            lemma_exec_outcome_all_bytes(pre, self@, Ok(()), Instruction::LoadRegs(x));
        }
        Ok(())
    }

    /// Executes exactly one instruction: fetch the opcode at the counter,
    /// decode it, apply it. While a `LD Vx, K` waits for a key the call
    /// does nothing and succeeds; the counter does not move. On any fault
    /// the machine state is left exactly as it was and the fault is
    /// returned. The result follows `spec_step` for the byte drawn from
    /// the randomness source: exactly, when the source is scripted, and
    /// for some byte when it is the operating system's.
    pub fn step(&mut self) -> (r: Result<(), Fault>)
        requires
            old(self).wf(),
        ensures
            final(self).wf(),
            exists|b: u8| spec_step_matches(old(self)@, final(self)@, r, b),
            old(self)@.script is Some ==> spec_step_matches(
                old(self)@,
                final(self)@,
                r,
                spec_script_byte(old(self)@),
            ),
    {
        let ghost pre = self@;
        if self.await_key.is_some() {
            proof {
                assert(spec_step_matches(pre, self@, Ok::<(), Fault>(()), 0));
                assert(spec_step_matches(pre, self@, Ok::<(), Fault>(()), spec_script_byte(pre)));
            }
            return Ok(());
        }
        if self.pc >= 4095 {
            proof {
                assert(spec_step_matches(pre, self@, Err::<(), Fault>(Fault::MemoryOutOfBounds), 0));
                assert(spec_step_matches(
                    pre,
                    self@,
                    Err::<(), Fault>(Fault::MemoryOutOfBounds),
                    spec_script_byte(pre),
                ));
            }
            return Err(Fault::MemoryOutOfBounds);
        }
        let pc0 = self.pc;
        let hb: u8 = self.ram[pc0 as usize];
        let lb: u8 = self.ram[pc0 as usize + 1];
        let op: u16 = (hb as u16) * 256 + (lb as u16);
        proof {
            assert(op == spec_opcode_at(pre));
        }
        let inst = match decode(op) {
            Ok(inst) => inst,
            Err(f) => {
                proof {
                    assert(spec_step_matches(pre, self@, Err::<(), Fault>(Fault::UnknownOpcode(op)), 0));
                    assert(spec_step_matches(
                        pre,
                        self@,
                        Err::<(), Fault>(Fault::UnknownOpcode(op)),
                        spec_script_byte(pre),
                    ));
                }
                return Err(f);
            },
        };
        self.pc = pc0 + 2;
        let ghost fetched = self@;
        proof {
            assert(fetched =~= spec_fetched(pre));
        }
        let res: Result<(), Fault> = match inst {
            Instruction::Cls => {
                self.op_00e0();
                Ok(())
            },
            Instruction::Ret => self.op_00ee(),
            Instruction::Jp(nnn) => {
                self.op_1nnn(nnn);
                Ok(())
            },
            Instruction::Call(nnn) => self.op_2nnn(nnn),
            Instruction::SeByte(xx, nn) => {
                self.op_3xnn(xx, nn);
                Ok(())
            },
            Instruction::SneByte(xx, nn) => {
                self.op_4xnn(xx, nn);
                Ok(())
            },
            Instruction::SeReg(xx, yy) => {
                self.op_5xy0(xx, yy);
                Ok(())
            },
            Instruction::LdByte(xx, nn) => {
                self.op_6xnn(xx, nn);
                Ok(())
            },
            Instruction::AddByte(xx, nn) => {
                self.op_7xnn(xx, nn);
                Ok(())
            },
            Instruction::LdReg(xx, yy) => {
                self.op_8xy0(xx, yy);
                Ok(())
            },
            Instruction::OrReg(xx, yy) => {
                self.op_8xy1(xx, yy);
                Ok(())
            },
            Instruction::AndReg(xx, yy) => {
                self.op_8xy2(xx, yy);
                Ok(())
            },
            Instruction::XorReg(xx, yy) => {
                self.op_8xy3(xx, yy);
                Ok(())
            },
            Instruction::AddReg(xx, yy) => {
                self.op_8xy4(xx, yy);
                Ok(())
            },
            Instruction::SubReg(xx, yy) => {
                self.op_8xy5(xx, yy);
                Ok(())
            },
            Instruction::Shr(xx) => {
                self.op_8xy6(xx);
                Ok(())
            },
            Instruction::SubnReg(xx, yy) => {
                self.op_8xy7(xx, yy);
                Ok(())
            },
            Instruction::Shl(xx) => {
                self.op_8xye(xx);
                Ok(())
            },
            Instruction::SneReg(xx, yy) => {
                self.op_9xy0(xx, yy);
                Ok(())
            },
            Instruction::LdI(nnn) => {
                self.op_annn(nnn);
                Ok(())
            },
            Instruction::JpV0(nnn) => {
                self.op_bnnn(nnn);
                Ok(())
            },
            Instruction::Rnd(xx, nn) => {
                self.op_cxnn(xx, nn);
                Ok(())
            },
            Instruction::Drw(xx, yy, nh) => self.op_dxyn(xx, yy, nh),
            Instruction::Skp(xx) => {
                self.op_ex9e(xx);
                Ok(())
            },
            Instruction::Sknp(xx) => {
                self.op_exa1(xx);
                Ok(())
            },
            Instruction::LdVxDt(xx) => {
                self.op_fx07(xx);
                Ok(())
            },
            Instruction::LdKey(xx) => {
                self.op_fx0a(xx);
                Ok(())
            },
            Instruction::LdDtVx(xx) => {
                self.op_fx15(xx);
                Ok(())
            },
            Instruction::LdStVx(xx) => {
                self.op_fx18(xx);
                Ok(())
            },
            Instruction::AddI(xx) => {
                self.op_fx1e(xx);
                Ok(())
            },
            Instruction::LdFont(xx) => {
                self.op_fx29(xx);
                Ok(())
            },
            Instruction::LdBcd(xx) => self.op_fx33(xx),
            Instruction::StoreRegs(xx) => self.op_fx55(xx),
            Instruction::LoadRegs(xx) => self.op_fx65(xx),
        };
        proof {
            assert(exec_outcome(fetched, self@, res, inst));
            assert(spec_script_byte(fetched) == spec_script_byte(pre));
        }
        let ghost after = self@;
        if res.is_err() {
            self.pc = pc0;
        }
        proof {
            let b0 = choose|b: u8| exec_outcome_for(fetched, after, res, inst, b);
            assert(exec_outcome_for(fetched, after, res, inst, b0));
            if res is Ok {
                lemma_step_lift(pre, inst, res, self@, b0);
                if pre.script is Some {
                    lemma_step_lift(pre, inst, res, self@, spec_script_byte(pre));
                }
            } else {
                assert(after == fetched);
                assert(self@ =~= pre);
                lemma_step_lift(pre, inst, res, self@, b0);
                if pre.script is Some {
                    lemma_step_lift(pre, inst, res, self@, spec_script_byte(pre));
                }
            }
            assert(spec_step_matches(pre, self@, res, b0));
        }
        res
    }
}

} // verus!
