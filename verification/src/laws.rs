//! Laws of the instruction semantics, proved once for all inputs.
//!
//! Each proof function states a property of the spec functions that the
//! executor's contracts are written against, so it holds of every run of
//! the machine.

use crate::decode::Instruction;
use crate::machine::{
    spec_exec, spec_flag, spec_sprite_bit_at, spec_step, view_wf, MachView, RAM_SIZE,
    SCREEN_PIXELS,
};
use vstd::prelude::*;

verus! {

/// `ADD Vx, Vy` computes the 9-bit sum of the two register values: VF
/// reports the carry, 1 exactly when the sum reaches 256, and Vx takes
/// the sum modulo 256 — unless Vx is the flag register itself, which the
/// carry overwrites.
pub proof fn lemma_add_reg_carry(m: MachView, x: u8, y: u8)
    requires
        view_wf(m),
        x < 16,
        y < 16,
    ensures
        spec_exec(m, Instruction::AddReg(x, y), 0) is Ok,
        ({
            let post = spec_exec(m, Instruction::AddReg(x, y), 0)->Ok_0;
            let a = m.v[x as int];
            let b = m.v[y as int];
            &&& post.v[15] == spec_flag(a + b >= 256)
            &&& (x != 15 ==> post.v[x as int] == ((a + b) % 256) as u8)
        }),
{
}

/// `SUB Vx, Vy` reports the borrow in VF: 1 exactly when `Vx >= Vy`, for
/// every pair of register values; Vx takes the wrapped difference —
/// unless Vx is the flag register itself, which the flag overwrites.
pub proof fn lemma_sub_reg_borrow(m: MachView, x: u8, y: u8)
    requires
        view_wf(m),
        x < 16,
        y < 16,
    ensures
        spec_exec(m, Instruction::SubReg(x, y), 0) is Ok,
        ({
            let post = spec_exec(m, Instruction::SubReg(x, y), 0)->Ok_0;
            let a = m.v[x as int];
            let b = m.v[y as int];
            &&& post.v[15] == spec_flag(a >= b)
            &&& (x != 15 ==> post.v[x as int] == ((a - b) % 256) as u8)
        }),
{
}

/// `SHR Vx` captures the pre-shift least-significant bit of Vx in VF:
/// whatever the shift writes, VF reflects the value Vx held before the
/// instruction.
pub proof fn lemma_shr_captures_bit(m: MachView, x: u8)
    requires
        view_wf(m),
        x < 16,
    ensures
        spec_exec(m, Instruction::Shr(x), 0) is Ok,
        ({
            let post = spec_exec(m, Instruction::Shr(x), 0)->Ok_0;
            &&& post.v[15] == spec_flag(m.v[x as int] % 2 == 1)
            &&& (x != 15 ==> post.v[x as int] == (m.v[x as int] / 2) as u8)
        }),
{
}

/// `SHL Vx` captures the pre-shift most-significant bit of Vx in VF:
/// whatever the shift writes, VF reflects the value Vx held before the
/// instruction.
pub proof fn lemma_shl_captures_bit(m: MachView, x: u8)
    requires
        view_wf(m),
        x < 16,
    ensures
        spec_exec(m, Instruction::Shl(x), 0) is Ok,
        ({
            let post = spec_exec(m, Instruction::Shl(x), 0)->Ok_0;
            &&& post.v[15] == spec_flag(m.v[x as int] >= 128)
            &&& (x != 15 ==> post.v[x as int] == ((m.v[x as int] * 2) % 256) as u8)
        }),
{
}

/// `CALL addr` pushes the address of the instruction after the call (the
/// executor's views carry the counter already moved past the
/// instruction), and a later `RET` from any state that still holds that
/// stack restores the counter to exactly that address and the stack to
/// what it was before the call.
pub proof fn lemma_call_then_ret(m: MachView, nnn: u16, t: MachView)
    requires
        view_wf(m),
        m.stack.len() < 16,
        view_wf(t),
        t.stack == spec_exec(m, Instruction::Call(nnn), 0)->Ok_0.stack,
    ensures
        spec_exec(m, Instruction::Call(nnn), 0) is Ok,
        spec_exec(t, Instruction::Ret, 0) is Ok,
        spec_exec(t, Instruction::Ret, 0)->Ok_0.pc == m.pc,
        spec_exec(t, Instruction::Ret, 0)->Ok_0.stack == m.stack,
{
    let pushed = spec_exec(m, Instruction::Call(nnn), 0)->Ok_0.stack;
    assert(pushed == m.stack.push(m.pc));
    assert(t.stack.last() == m.pc);
    assert(t.stack.drop_last() =~= m.stack);
}

/// Drawing the same sprite twice at the same spot restores the
/// framebuffer — the XOR composition cancels itself — and the second
/// draw reports a collision exactly when the first turned some pixel on.
/// `x` and `y` must name registers other than VF, which the first draw
/// overwrites with its collision flag.
pub proof fn lemma_draw_twice(m: MachView, x: u8, y: u8, n: u8)
    requires
        view_wf(m),
        x < 15,
        y < 15,
        n < 16,
        n > 0 ==> m.i + n <= RAM_SIZE,
    ensures
        spec_exec(m, Instruction::Drw(x, y, n), 0) is Ok,
        spec_exec(
            spec_exec(m, Instruction::Drw(x, y, n), 0)->Ok_0,
            Instruction::Drw(x, y, n),
            0,
        ) is Ok,
        ({
            let m1 = spec_exec(m, Instruction::Drw(x, y, n), 0)->Ok_0;
            let m2 = spec_exec(m1, Instruction::Drw(x, y, n), 0)->Ok_0;
            &&& m2.screen == m.screen
            &&& m2.v[15] == spec_flag(
                exists|p: int|
                    0 <= p < SCREEN_PIXELS && spec_sprite_bit_at(m, x as int, y as int, n as int, p)
                        && !m.screen[p],
            )
        }),
{
    let xi = x as int;
    let yi = y as int;
    let ni = n as int;
    let m1 = spec_exec(m, Instruction::Drw(x, y, n), 0)->Ok_0;
    assert(m1.i == m.i && m1.ram == m.ram);
    assert(m1.v[xi] == m.v[xi] && m1.v[yi] == m.v[yi]);
    assert forall|p: int|
        spec_sprite_bit_at(m1, xi, yi, ni, p) == spec_sprite_bit_at(
            m,
            xi,
            yi,
            ni,
            p,
        ) by {}
    let m2 = spec_exec(m1, Instruction::Drw(x, y, n), 0)->Ok_0;
    assert forall|p: int| 0 <= p < SCREEN_PIXELS implies m2.screen[p] == m.screen[p] by {
        assert(m1.screen[p] == (m.screen[p] != spec_sprite_bit_at(m, xi, yi, ni, p)));
    }
    assert(m2.screen =~= m.screen);
    if exists|p: int|
        0 <= p < SCREEN_PIXELS && m1.screen[p] && spec_sprite_bit_at(m1, xi, yi, ni, p) {
        let p0 = choose|p: int|
            0 <= p < SCREEN_PIXELS && m1.screen[p] && spec_sprite_bit_at(m1, xi, yi, ni, p);
        assert(m1.screen[p0] == (m.screen[p0] != spec_sprite_bit_at(m, xi, yi, ni, p0)));
        assert(spec_sprite_bit_at(m, xi, yi, ni, p0) && !m.screen[p0]);
    }
    if exists|p: int|
        0 <= p < SCREEN_PIXELS && spec_sprite_bit_at(m, xi, yi, ni, p) && !m.screen[p] {
        let p0 = choose|p: int|
            0 <= p < SCREEN_PIXELS && spec_sprite_bit_at(m, xi, yi, ni, p) && !m.screen[p];
        assert(m1.screen[p0] == (m.screen[p0] != spec_sprite_bit_at(m, xi, yi, ni, p0)));
        assert(m1.screen[p0] && spec_sprite_bit_at(m1, xi, yi, ni, p0));
    }
}

/// While a `LD Vx, K` waits for a key, a step does nothing at all: the
/// machine state — the counter included — is untouched, and the call
/// succeeds, whatever byte the randomness source would yield.
pub proof fn lemma_step_awaiting(m: MachView, b: u8)
    requires
        m.await_key is Some,
    ensures
        spec_step(m, b).0 == m,
        spec_step(m, b).1 is Ok,
{
}

} // verus!
