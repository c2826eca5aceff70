use chip8::machine::Simulator;
use chip8::Fault;

/// Lays a list of 16-bit opcodes out as big-endian program bytes.
fn prog(words: &[u16]) -> Vec<u8> {
    let mut bytes = Vec::new();
    for w in words {
        bytes.push((w >> 8) as u8);
        bytes.push((w & 0xFF) as u8);
    }
    bytes
}

fn machine_with(words: &[u16]) -> Simulator {
    let mut sim = Simulator::new(None);
    sim.load_program(&prog(words)[..]).unwrap();
    sim
}

#[test]
fn add_reg_carries_into_vf() {
    // VA = 0xF0, VB = 0x20; ADD VA, VB: 0xF0 + 0x20 = 0x110.
    let mut sim = machine_with(&[0x6AF0, 0x6B20, 0x8AB4]);
    for _ in 0..3 {
        sim.step().unwrap();
    }
    assert_eq!(sim.v[0xA], 0x10);
    assert_eq!(sim.v[0xF], 1);
}

#[test]
fn add_reg_without_carry_clears_vf() {
    let mut sim = machine_with(&[0x6A03, 0x6B04, 0x6F01, 0x8AB4]);
    for _ in 0..4 {
        sim.step().unwrap();
    }
    assert_eq!(sim.v[0xA], 7);
    assert_eq!(sim.v[0xF], 0);
}

#[test]
fn sub_reg_sets_vf_on_no_borrow() {
    let mut sim = machine_with(&[0x6A05, 0x6B03, 0x8AB5]);
    for _ in 0..3 {
        sim.step().unwrap();
    }
    assert_eq!(sim.v[0xA], 2);
    assert_eq!(sim.v[0xF], 1);
}

#[test]
fn sub_reg_clears_vf_on_borrow() {
    let mut sim = machine_with(&[0x6A03, 0x6B05, 0x8AB5]);
    for _ in 0..3 {
        sim.step().unwrap();
    }
    assert_eq!(sim.v[0xA], 254);
    assert_eq!(sim.v[0xF], 0);
}

#[test]
fn subn_reg_sets_vf_on_no_borrow() {
    let mut sim = machine_with(&[0x6A03, 0x6B05, 0x8AB7]);
    for _ in 0..3 {
        sim.step().unwrap();
    }
    assert_eq!(sim.v[0xA], 2);
    assert_eq!(sim.v[0xF], 1);
}

#[test]
fn shr_captures_low_bit_before_shifting() {
    // VA = 0b101: VF takes the low bit, VA the shifted value.
    let mut sim = machine_with(&[0x6A05, 0x8A06]);
    for _ in 0..2 {
        sim.step().unwrap();
    }
    assert_eq!(sim.v[0xA], 2);
    assert_eq!(sim.v[0xF], 1);
}

#[test]
fn shl_captures_high_bit_before_shifting() {
    // VA = 0x81: VF takes the high bit, VA the truncated shift.
    let mut sim = machine_with(&[0x6A81, 0x8A0E]);
    for _ in 0..2 {
        sim.step().unwrap();
    }
    assert_eq!(sim.v[0xA], 2);
    assert_eq!(sim.v[0xF], 1);
}

#[test]
fn alu_bitwise_ops() {
    let mut sim = machine_with(&[0x6A0F, 0x6B35, 0x8AB1]);
    for _ in 0..3 {
        sim.step().unwrap();
    }
    assert_eq!(sim.v[0xA], 0x3F);

    let mut sim = machine_with(&[0x6A0F, 0x6B35, 0x8AB2]);
    for _ in 0..3 {
        sim.step().unwrap();
    }
    assert_eq!(sim.v[0xA], 0x05);

    let mut sim = machine_with(&[0x6A0F, 0x6B35, 0x8AB3]);
    for _ in 0..3 {
        sim.step().unwrap();
    }
    assert_eq!(sim.v[0xA], 0x3A);

    let mut sim = machine_with(&[0x6B35, 0x8AB0]);
    for _ in 0..2 {
        sim.step().unwrap();
    }
    assert_eq!(sim.v[0xA], 0x35);
}

#[test]
fn add_byte_wraps_without_flag() {
    let mut sim = machine_with(&[0x6AFF, 0x7A02]);
    for _ in 0..2 {
        sim.step().unwrap();
    }
    assert_eq!(sim.v[0xA], 1);
    assert_eq!(sim.v[0xF], 0);
}

#[test]
fn jumps_set_the_counter() {
    let mut sim = machine_with(&[0x1234]);
    sim.step().unwrap();
    assert_eq!(sim.pc, 0x234);

    let mut sim = machine_with(&[0x6010, 0xB300]);
    for _ in 0..2 {
        sim.step().unwrap();
    }
    assert_eq!(sim.pc, 0x310);
}

#[test]
fn skip_on_equal_byte() {
    let mut sim = machine_with(&[0x6A07, 0x3A07]);
    for _ in 0..2 {
        sim.step().unwrap();
    }
    assert_eq!(sim.pc, 0x206);

    let mut sim = machine_with(&[0x6A07, 0x3A08]);
    for _ in 0..2 {
        sim.step().unwrap();
    }
    assert_eq!(sim.pc, 0x204);
}

#[test]
fn skip_on_register_comparisons() {
    let mut sim = machine_with(&[0x6A07, 0x6B07, 0x5AB0]);
    for _ in 0..3 {
        sim.step().unwrap();
    }
    assert_eq!(sim.pc, 0x208);

    let mut sim = machine_with(&[0x6A07, 0x6B08, 0x9AB0]);
    for _ in 0..3 {
        sim.step().unwrap();
    }
    assert_eq!(sim.pc, 0x208);
}

#[test]
fn skip_on_key_state() {
    let mut sim = machine_with(&[0x6A02, 0xEA9E]);
    sim.set_key_state(2, true);
    for _ in 0..2 {
        sim.step().unwrap();
    }
    assert_eq!(sim.pc, 0x206);

    let mut sim = machine_with(&[0x6A02, 0xEAA1]);
    for _ in 0..2 {
        sim.step().unwrap();
    }
    assert_eq!(sim.pc, 0x206);
}

#[test]
fn skip_keys_use_the_low_nibble_of_vx() {
    // With 16 keys, the key numbered by Vx is its low nibble: VA = 0xF2
    // names key 2.
    let mut sim = machine_with(&[0x6AF2, 0xEA9E]);
    sim.set_key_state(2, true);
    for _ in 0..2 {
        sim.step().unwrap();
    }
    assert_eq!(sim.pc, 0x206);
}

#[test]
fn call_then_ret_resumes_after_the_call() {
    // CALL 0x300; the subroutine at 0x300 is a lone RET.
    let mut bytes = prog(&[0x2300]);
    bytes.resize(0x100, 0);
    bytes.push(0x00);
    bytes.push(0xEE);
    let mut sim = Simulator::new(None);
    sim.load_program(&bytes[..]).unwrap();
    sim.step().unwrap();
    assert_eq!(sim.pc, 0x300);
    assert_eq!(sim.stack.len(), 1);
    sim.step().unwrap();
    assert_eq!(sim.pc, 0x202);
    assert_eq!(sim.stack.len(), 0);
}

#[test]
fn sixteen_calls_fit_and_the_seventeenth_overflows() {
    // A chain of CALLs, each to the next instruction.
    let mut words = Vec::new();
    for k in 0..17u16 {
        words.push(0x2000 | (0x202 + 2 * k));
    }
    let mut sim = machine_with(&words[..]);
    for _ in 0..16 {
        sim.step().unwrap();
    }
    assert_eq!(sim.stack.len(), 16);
    let pc_before = sim.pc;
    assert_eq!(sim.step(), Err(Fault::StackOverflow));
    assert_eq!(sim.pc, pc_before);
    assert_eq!(sim.stack.len(), 16);
}

#[test]
fn ret_with_empty_stack_underflows() {
    let mut sim = machine_with(&[0x00EE]);
    assert_eq!(sim.step(), Err(Fault::StackUnderflow));
    assert_eq!(sim.pc, 0x200);
}

#[test]
fn unknown_opcode_is_surfaced_and_does_not_advance() {
    let mut sim = machine_with(&[0x5001]);
    assert_eq!(sim.step(), Err(Fault::UnknownOpcode(0x5001)));
    assert_eq!(sim.pc, 0x200);
}

#[test]
fn bcd_writes_three_digits() {
    let mut sim = machine_with(&[0x6A7B, 0xA300, 0xFA33]);
    for _ in 0..3 {
        sim.step().unwrap();
    }
    assert_eq!(sim.ram[0x300], 1);
    assert_eq!(sim.ram[0x301], 2);
    assert_eq!(sim.ram[0x302], 3);
}

#[test]
fn store_then_load_registers_round_trip() {
    let mut sim = machine_with(&[
        0x6005, 0x6107, 0xA350, 0xF155, // store V0..=V1 at 0x350
        0x6000, 0x6100, // clear them
        0xF165, // load them back
    ]);
    for _ in 0..7 {
        sim.step().unwrap();
    }
    assert_eq!(sim.ram[0x350], 5);
    assert_eq!(sim.ram[0x351], 7);
    assert_eq!(sim.v[0], 5);
    assert_eq!(sim.v[1], 7);
}

#[test]
fn font_glyphs_are_preloaded_and_addressable() {
    let sim = Simulator::new(None);
    // glyph 0 is the first five bytes
    assert_eq!(sim.ram[0], 0xF0);
    assert_eq!(sim.ram[1], 0x90);
    assert_eq!(sim.ram[4], 0xF0);
    // glyph F starts at 75
    assert_eq!(sim.ram[75], 0xF0);
    assert_eq!(sim.ram[79], 0x80);

    let mut sim = machine_with(&[0x6A0F, 0xFA29]);
    for _ in 0..2 {
        sim.step().unwrap();
    }
    assert_eq!(sim.i, 75);
}

#[test]
fn add_i_sets_vf_on_sixteen_bit_overflow() {
    let mut sim = machine_with(&[0xF01E]);
    sim.i = 0xFFFF;
    sim.v[0] = 2;
    sim.step().unwrap();
    assert_eq!(sim.i, 1);
    assert_eq!(sim.v[0xF], 1);
}

#[test]
fn add_i_without_overflow_clears_vf() {
    let mut sim = machine_with(&[0xAFFF, 0x6002, 0x6F01, 0xF01E]);
    for _ in 0..4 {
        sim.step().unwrap();
    }
    assert_eq!(sim.i, 0x1001);
    assert_eq!(sim.v[0xF], 0);
}

#[test]
fn index_relative_access_past_memory_faults() {
    // BCD at I = 0xFFE would write bytes 0xFFE..=0x1000.
    let mut sim = machine_with(&[0xAFFE, 0xFA33]);
    sim.step().unwrap();
    let pc_before = sim.pc;
    assert_eq!(sim.step(), Err(Fault::MemoryOutOfBounds));
    assert_eq!(sim.pc, pc_before);

    // A two-row sprite read at I = 0xFFF runs past 0xFFF.
    let mut sim = machine_with(&[0xAFFF, 0xDAB2]);
    sim.step().unwrap();
    assert_eq!(sim.step(), Err(Fault::MemoryOutOfBounds));

    // Storing V0..=VF at I = 0xFF8 would write past 0xFFF.
    let mut sim = machine_with(&[0xAFF8, 0xFF55]);
    sim.step().unwrap();
    assert_eq!(sim.step(), Err(Fault::MemoryOutOfBounds));
}

#[test]
fn timers_count_down_to_zero_and_stop() {
    let mut sim = machine_with(&[0x6A02, 0xFA15, 0xFA18]);
    for _ in 0..3 {
        sim.step().unwrap();
    }
    assert_eq!(sim.delay_timer, 2);
    assert_eq!(sim.sound_timer, 2);
    sim.tick_timers();
    assert_eq!(sim.delay_timer, 1);
    sim.tick_timers();
    sim.tick_timers();
    sim.tick_timers();
    assert_eq!(sim.delay_timer, 0);
    assert_eq!(sim.sound_timer, 0);
}

#[test]
fn delay_timer_reads_back_into_a_register() {
    let mut sim = machine_with(&[0x6A05, 0xFA15, 0xFB07]);
    for _ in 0..2 {
        sim.step().unwrap();
    }
    sim.tick_timers();
    sim.tick_timers();
    sim.step().unwrap();
    assert_eq!(sim.v[0xB], 3);
}

#[test]
fn rnd_scripted_source_is_deterministic_and_cycles() {
    let mut sim = Simulator::new(Some(vec![0xAB, 0x0F]));
    sim.load_program(&prog(&[0xC0FF, 0xC1F0, 0xC2FF])[..]).unwrap();
    sim.step().unwrap();
    assert_eq!(sim.v[0], 0xAB);
    sim.step().unwrap();
    assert_eq!(sim.v[1], 0x0F & 0xF0);
    sim.step().unwrap();
    assert_eq!(sim.v[2], 0xAB);
}

#[test]
fn rnd_masks_with_the_immediate() {
    // With a zero mask the drawn byte cannot show through, whatever the
    // system generator yields.
    let mut sim = machine_with(&[0x6A55, 0xCA00]);
    for _ in 0..2 {
        sim.step().unwrap();
    }
    assert_eq!(sim.v[0xA], 0);
}
