use chip8::decode::{decode, Instruction};
use chip8::Fault;

#[test]
fn decodes_cls() {
    assert_eq!(decode(0x00E0), Ok(Instruction::Cls));
}

#[test]
fn decodes_ret() {
    assert_eq!(decode(0x00EE), Ok(Instruction::Ret));
}

#[test]
fn decodes_jump() {
    assert_eq!(decode(0x1234), Ok(Instruction::Jp(0x234)));
}

#[test]
fn decodes_load_byte() {
    assert_eq!(decode(0x6A07), Ok(Instruction::LdByte(0xA, 0x07)));
}

#[test]
fn rejects_unassigned_pattern() {
    assert_eq!(decode(0x5001), Err(Fault::UnknownOpcode(0x5001)));
}

#[test]
fn decodes_call_and_skip_family() {
    assert_eq!(decode(0x2345), Ok(Instruction::Call(0x345)));
    assert_eq!(decode(0x3A10), Ok(Instruction::SeByte(0xA, 0x10)));
    assert_eq!(decode(0x4A10), Ok(Instruction::SneByte(0xA, 0x10)));
    assert_eq!(decode(0x5AB0), Ok(Instruction::SeReg(0xA, 0xB)));
    assert_eq!(decode(0x9AB0), Ok(Instruction::SneReg(0xA, 0xB)));
}

#[test]
fn decodes_alu_family() {
    assert_eq!(decode(0x7A10), Ok(Instruction::AddByte(0xA, 0x10)));
    assert_eq!(decode(0x8AB0), Ok(Instruction::LdReg(0xA, 0xB)));
    assert_eq!(decode(0x8AB1), Ok(Instruction::OrReg(0xA, 0xB)));
    assert_eq!(decode(0x8AB2), Ok(Instruction::AndReg(0xA, 0xB)));
    assert_eq!(decode(0x8AB3), Ok(Instruction::XorReg(0xA, 0xB)));
    assert_eq!(decode(0x8AB4), Ok(Instruction::AddReg(0xA, 0xB)));
    assert_eq!(decode(0x8AB5), Ok(Instruction::SubReg(0xA, 0xB)));
    assert_eq!(decode(0x8AB6), Ok(Instruction::Shr(0xA)));
    assert_eq!(decode(0x8AB7), Ok(Instruction::SubnReg(0xA, 0xB)));
    assert_eq!(decode(0x8ABE), Ok(Instruction::Shl(0xA)));
    assert_eq!(decode(0x8AB8), Err(Fault::UnknownOpcode(0x8AB8)));
}

#[test]
fn decodes_remaining_families() {
    assert_eq!(decode(0xA123), Ok(Instruction::LdI(0x123)));
    assert_eq!(decode(0xB123), Ok(Instruction::JpV0(0x123)));
    assert_eq!(decode(0xC599), Ok(Instruction::Rnd(0x5, 0x99)));
    assert_eq!(decode(0xDAB4), Ok(Instruction::Drw(0xA, 0xB, 0x4)));
    assert_eq!(decode(0xEA9E), Ok(Instruction::Skp(0xA)));
    assert_eq!(decode(0xEAA1), Ok(Instruction::Sknp(0xA)));
    assert_eq!(decode(0xEA9F), Err(Fault::UnknownOpcode(0xEA9F)));
    assert_eq!(decode(0xFA07), Ok(Instruction::LdVxDt(0xA)));
    assert_eq!(decode(0xFA0A), Ok(Instruction::LdKey(0xA)));
    assert_eq!(decode(0xFA15), Ok(Instruction::LdDtVx(0xA)));
    assert_eq!(decode(0xFA18), Ok(Instruction::LdStVx(0xA)));
    assert_eq!(decode(0xFA1E), Ok(Instruction::AddI(0xA)));
    assert_eq!(decode(0xFA29), Ok(Instruction::LdFont(0xA)));
    assert_eq!(decode(0xFA33), Ok(Instruction::LdBcd(0xA)));
    assert_eq!(decode(0xFA55), Ok(Instruction::StoreRegs(0xA)));
    assert_eq!(decode(0xFA65), Ok(Instruction::LoadRegs(0xA)));
    assert_eq!(decode(0xFA66), Err(Fault::UnknownOpcode(0xFA66)));
    assert_eq!(decode(0x0123), Err(Fault::UnknownOpcode(0x0123)));
}
