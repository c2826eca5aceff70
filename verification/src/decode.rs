//! The decoder: a pure function from a 16-bit opcode to a tagged instruction.
//!
//! An opcode is read big-endian from two consecutive memory bytes. Its four
//! 4-bit nibbles select the instruction family and carry the operands: a
//! 12-bit address `nnn`, an 8-bit immediate `nn`, register selectors `x` and
//! `y`, and a 4-bit sprite height `n`. Any unmatched pattern is rejected with
//! `Fault::UnknownOpcode` carrying the raw opcode.

use crate::Fault;
use vstd::prelude::*;

verus! {

/// A decoded CHIP-8 instruction.
///
/// Register operands are the 4-bit selectors `x` and `y` (always below 16),
/// `nnn` is a 12-bit address, `nn` an 8-bit immediate, and `n` a 4-bit
/// sprite height.
#[derive(Clone, Copy, Debug, PartialEq, Eq, Structural)]
pub enum Instruction {
    /// `00E0`: clear the framebuffer.
    Cls,
    /// `00EE`: return from a subroutine.
    Ret,
    /// `1nnn`: jump to `nnn`.
    Jp(u16),
    /// `2nnn`: call the subroutine at `nnn`.
    Call(u16),
    /// `3xnn`: skip the next instruction if `Vx == nn`.
    SeByte(u8, u8),
    /// `4xnn`: skip the next instruction if `Vx != nn`.
    SneByte(u8, u8),
    /// `5xy0`: skip the next instruction if `Vx == Vy`.
    SeReg(u8, u8),
    /// `6xnn`: `Vx <- nn`.
    LdByte(u8, u8),
    /// `7xnn`: `Vx <- Vx + nn`, wrapping, no flag effect.
    AddByte(u8, u8),
    /// `8xy0`: `Vx <- Vy`.
    LdReg(u8, u8),
    /// `8xy1`: `Vx <- Vx | Vy`.
    OrReg(u8, u8),
    /// `8xy2`: `Vx <- Vx & Vy`.
    AndReg(u8, u8),
    /// `8xy3`: `Vx <- Vx ^ Vy`.
    XorReg(u8, u8),
    /// `8xy4`: `Vx <- Vx + Vy` low byte; `VF` is the carry out of bit 8.
    AddReg(u8, u8),
    /// `8xy5`: `Vx <- Vx - Vy` wrapping; `VF` is 1 when no borrow (`Vx >= Vy`).
    SubReg(u8, u8),
    /// `8xy6`: `VF <- ` least-significant bit of `Vx`; `Vx <- Vx >> 1`.
    Shr(u8),
    /// `8xy7`: `Vx <- Vy - Vx` wrapping; `VF` is 1 when no borrow (`Vy >= Vx`).
    SubnReg(u8, u8),
    /// `8xyE`: `VF <- ` most-significant bit of `Vx`; `Vx <- Vx << 1` truncated.
    Shl(u8),
    /// `9xy0`: skip the next instruction if `Vx != Vy`.
    SneReg(u8, u8),
    /// `Annn`: index register `<- nnn`.
    LdI(u16),
    /// `Bnnn`: jump to `nnn + V0`.
    JpV0(u16),
    /// `Cxnn`: `Vx <- nn & ` a byte from the randomness source.
    Rnd(u8, u8),
    /// `Dxyn`: XOR an 8-wide, `n`-tall sprite read from memory at the index
    /// register onto the framebuffer at `(Vx, Vy)`, wrapping at the edges;
    /// `VF` reports whether any pixel was turned off (a collision).
    Drw(u8, u8, u8),
    /// `Ex9E`: skip the next instruction if the key numbered by `Vx` is pressed.
    Skp(u8),
    /// `ExA1`: skip the next instruction if the key numbered by `Vx` is not pressed.
    Sknp(u8),
    /// `Fx07`: `Vx <- ` delay timer.
    LdVxDt(u8),
    /// `Fx0A`: suspend until a key press arrives, then store the key code in `Vx`.
    LdKey(u8),
    /// `Fx15`: delay timer `<- Vx`.
    LdDtVx(u8),
    /// `Fx18`: sound timer `<- Vx`.
    LdStVx(u8),
    /// `Fx1E`: index register `<- I + Vx` low 16 bits; `VF` is the carry out of bit 16.
    AddI(u8),
    /// `Fx29`: index register `<- Vx * 5`, the address of the font glyph for digit `Vx`.
    LdFont(u8),
    /// `Fx33`: write the three decimal digits of `Vx` to memory at `I`, `I+1`, `I+2`.
    LdBcd(u8),
    /// `Fx55`: copy registers `V0..=Vx` into memory starting at `I`.
    StoreRegs(u8),
    /// `Fx65`: copy memory starting at `I` into registers `V0..=Vx`.
    LoadRegs(u8),
}

/// Every operand a decoded instruction carries is in range: register
/// selectors and the sprite height are 4-bit values, addresses are 12-bit.
pub open spec fn inst_wf(inst: Instruction) -> bool {
    match inst {
        Instruction::Cls => true,
        Instruction::Ret => true,
        Instruction::Jp(nnn) => nnn < 4096,
        Instruction::Call(nnn) => nnn < 4096,
        Instruction::SeByte(x, _) => x < 16,
        Instruction::SneByte(x, _) => x < 16,
        Instruction::SeReg(x, y) => x < 16 && y < 16,
        Instruction::LdByte(x, _) => x < 16,
        Instruction::AddByte(x, _) => x < 16,
        Instruction::LdReg(x, y) => x < 16 && y < 16,
        Instruction::OrReg(x, y) => x < 16 && y < 16,
        Instruction::AndReg(x, y) => x < 16 && y < 16,
        Instruction::XorReg(x, y) => x < 16 && y < 16,
        Instruction::AddReg(x, y) => x < 16 && y < 16,
        Instruction::SubReg(x, y) => x < 16 && y < 16,
        Instruction::Shr(x) => x < 16,
        Instruction::SubnReg(x, y) => x < 16 && y < 16,
        Instruction::Shl(x) => x < 16,
        Instruction::SneReg(x, y) => x < 16 && y < 16,
        Instruction::LdI(nnn) => nnn < 4096,
        Instruction::JpV0(nnn) => nnn < 4096,
        Instruction::Rnd(x, _) => x < 16,
        Instruction::Drw(x, y, n) => x < 16 && y < 16 && n < 16,
        Instruction::Skp(x) => x < 16,
        Instruction::Sknp(x) => x < 16,
        Instruction::LdVxDt(x) => x < 16,
        Instruction::LdKey(x) => x < 16,
        Instruction::LdDtVx(x) => x < 16,
        Instruction::LdStVx(x) => x < 16,
        Instruction::AddI(x) => x < 16,
        Instruction::LdFont(x) => x < 16,
        Instruction::LdBcd(x) => x < 16,
        Instruction::StoreRegs(x) => x < 16,
        Instruction::LoadRegs(x) => x < 16,
    }
}

/// What `decode` returns: the instruction selected by the opcode's nibble
/// pattern, or `None` for an unassigned pattern.
pub open spec fn spec_decode(op: u16) -> Option<Instruction> {
    let x = ((op >> 8) & 0xF) as u8;
    let y = ((op >> 4) & 0xF) as u8;
    let nnn = op & 0xFFF;
    let nn = (op & 0xFF) as u8;
    let n = (op & 0xF) as u8;
    let family = op >> 12;
    let low = op & 0xF;
    let low2 = op & 0xFF;
    if op == 0x00E0 {
        Some(Instruction::Cls)
    } else if op == 0x00EE {
        Some(Instruction::Ret)
    } else if family == 0x1 {
        Some(Instruction::Jp(nnn))
    } else if family == 0x2 {
        Some(Instruction::Call(nnn))
    } else if family == 0x3 {
        Some(Instruction::SeByte(x, nn))
    } else if family == 0x4 {
        Some(Instruction::SneByte(x, nn))
    } else if family == 0x5 && low == 0x0 {
        Some(Instruction::SeReg(x, y))
    } else if family == 0x6 {
        Some(Instruction::LdByte(x, nn))
    } else if family == 0x7 {
        Some(Instruction::AddByte(x, nn))
    } else if family == 0x8 && low == 0x0 {
        Some(Instruction::LdReg(x, y))
    } else if family == 0x8 && low == 0x1 {
        Some(Instruction::OrReg(x, y))
    } else if family == 0x8 && low == 0x2 {
        Some(Instruction::AndReg(x, y))
    } else if family == 0x8 && low == 0x3 {
        Some(Instruction::XorReg(x, y))
    } else if family == 0x8 && low == 0x4 {
        Some(Instruction::AddReg(x, y))
    } else if family == 0x8 && low == 0x5 {
        Some(Instruction::SubReg(x, y))
    } else if family == 0x8 && low == 0x6 {
        Some(Instruction::Shr(x))
    } else if family == 0x8 && low == 0x7 {
        Some(Instruction::SubnReg(x, y))
    } else if family == 0x8 && low == 0xE {
        Some(Instruction::Shl(x))
    } else if family == 0x9 && low == 0x0 {
        Some(Instruction::SneReg(x, y))
    } else if family == 0xA {
        Some(Instruction::LdI(nnn))
    } else if family == 0xB {
        Some(Instruction::JpV0(nnn))
    } else if family == 0xC {
        Some(Instruction::Rnd(x, nn))
    } else if family == 0xD {
        Some(Instruction::Drw(x, y, n))
    } else if family == 0xE && low2 == 0x9E {
        Some(Instruction::Skp(x))
    } else if family == 0xE && low2 == 0xA1 {
        Some(Instruction::Sknp(x))
    } else if family == 0xF && low2 == 0x07 {
        Some(Instruction::LdVxDt(x))
    } else if family == 0xF && low2 == 0x0A {
        Some(Instruction::LdKey(x))
    } else if family == 0xF && low2 == 0x15 {
        Some(Instruction::LdDtVx(x))
    } else if family == 0xF && low2 == 0x18 {
        Some(Instruction::LdStVx(x))
    } else if family == 0xF && low2 == 0x1E {
        Some(Instruction::AddI(x))
    } else if family == 0xF && low2 == 0x29 {
        Some(Instruction::LdFont(x))
    } else if family == 0xF && low2 == 0x33 {
        Some(Instruction::LdBcd(x))
    } else if family == 0xF && low2 == 0x55 {
        Some(Instruction::StoreRegs(x))
    } else if family == 0xF && low2 == 0x65 {
        Some(Instruction::LoadRegs(x))
    } else {
        None
    }
}

/// Decodes one 16-bit opcode, or reports `Fault::UnknownOpcode` for an
/// unassigned bit pattern. Every operand of a decoded instruction is in
/// range (`inst_wf`).
pub fn decode(op: u16) -> (r: Result<Instruction, Fault>)
    ensures
        spec_decode(op) matches Some(inst) ==> r == Ok::<Instruction, Fault>(inst) && inst_wf(
            inst,
        ),
        spec_decode(op) is None ==> r == Err::<Instruction, Fault>(Fault::UnknownOpcode(op)),
{
    proof {
        assert(((op >> 8) & 0xF) < 16) by (bit_vector);
        assert(((op >> 4) & 0xF) < 16) by (bit_vector);
        assert((op & 0xF) < 16) by (bit_vector);
        assert((op & 0xFF) < 256) by (bit_vector);
        assert((op & 0xFFF) < 4096) by (bit_vector);
    }
    let x = ((op >> 8) & 0xF) as u8;
    let y = ((op >> 4) & 0xF) as u8;
    let nnn = op & 0xFFF;
    let nn = (op & 0xFF) as u8;
    let n = (op & 0xF) as u8;
    let family = op >> 12;
    let low = op & 0xF;
    let low2 = op & 0xFF;
    if op == 0x00E0 {
        Ok(Instruction::Cls)
    } else if op == 0x00EE {
        Ok(Instruction::Ret)
    } else if family == 0x1 {
        Ok(Instruction::Jp(nnn))
    } else if family == 0x2 {
        Ok(Instruction::Call(nnn))
    } else if family == 0x3 {
        Ok(Instruction::SeByte(x, nn))
    } else if family == 0x4 {
        Ok(Instruction::SneByte(x, nn))
    } else if family == 0x5 && low == 0x0 {
        Ok(Instruction::SeReg(x, y))
    } else if family == 0x6 {
        Ok(Instruction::LdByte(x, nn))
    } else if family == 0x7 {
        Ok(Instruction::AddByte(x, nn))
    } else if family == 0x8 && low == 0x0 {
        Ok(Instruction::LdReg(x, y))
    } else if family == 0x8 && low == 0x1 {
        Ok(Instruction::OrReg(x, y))
    } else if family == 0x8 && low == 0x2 {
        Ok(Instruction::AndReg(x, y))
    } else if family == 0x8 && low == 0x3 {
        Ok(Instruction::XorReg(x, y))
    } else if family == 0x8 && low == 0x4 {
        Ok(Instruction::AddReg(x, y))
    } else if family == 0x8 && low == 0x5 {
        Ok(Instruction::SubReg(x, y))
    } else if family == 0x8 && low == 0x6 {
        Ok(Instruction::Shr(x))
    } else if family == 0x8 && low == 0x7 {
        Ok(Instruction::SubnReg(x, y))
    } else if family == 0x8 && low == 0xE {
        Ok(Instruction::Shl(x))
    } else if family == 0x9 && low == 0x0 {
        Ok(Instruction::SneReg(x, y))
    } else if family == 0xA {
        Ok(Instruction::LdI(nnn))
    } else if family == 0xB {
        Ok(Instruction::JpV0(nnn))
    } else if family == 0xC {
        Ok(Instruction::Rnd(x, nn))
    } else if family == 0xD {
        Ok(Instruction::Drw(x, y, n))
    } else if family == 0xE && low2 == 0x9E {
        Ok(Instruction::Skp(x))
    } else if family == 0xE && low2 == 0xA1 {
        Ok(Instruction::Sknp(x))
    } else if family == 0xF && low2 == 0x07 {
        Ok(Instruction::LdVxDt(x))
    } else if family == 0xF && low2 == 0x0A {
        Ok(Instruction::LdKey(x))
    } else if family == 0xF && low2 == 0x15 {
        Ok(Instruction::LdDtVx(x))
    } else if family == 0xF && low2 == 0x18 {
        Ok(Instruction::LdStVx(x))
    } else if family == 0xF && low2 == 0x1E {
        Ok(Instruction::AddI(x))
    } else if family == 0xF && low2 == 0x29 {
        Ok(Instruction::LdFont(x))
    } else if family == 0xF && low2 == 0x33 {
        Ok(Instruction::LdBcd(x))
    } else if family == 0xF && low2 == 0x55 {
        Ok(Instruction::StoreRegs(x))
    } else if family == 0xF && low2 == 0x65 {
        Ok(Instruction::LoadRegs(x))
    } else {
        Err(Fault::UnknownOpcode(op))
    }
}

} // verus!
