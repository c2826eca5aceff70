use chip8::machine::{Simulator, SCREEN_WIDTH};
use chip8::ProgramTooLarge;

/// Lays a list of 16-bit opcodes out as big-endian program bytes.
fn prog(words: &[u16]) -> Vec<u8> {
    let mut bytes = Vec::new();
    for w in words {
        bytes.push((w >> 8) as u8);
        bytes.push((w & 0xFF) as u8);
    }
    bytes
}

fn pixel(snap: &[bool], x: usize, y: usize) -> bool {
    snap[y * SCREEN_WIDTH + x]
}

#[test]
fn load_accepts_3584_bytes_and_rejects_3585() {
    let mut sim = Simulator::new(None);
    let full = vec![0x42u8; 3584];
    assert_eq!(sim.load_program(&full[..]), Ok(()));
    assert_eq!(sim.ram[0x200], 0x42);
    assert_eq!(sim.ram[0xFFF], 0x42);

    let mut sim = Simulator::new(None);
    let too_big = vec![0x42u8; 3585];
    assert_eq!(sim.load_program(&too_big[..]), Err(ProgramTooLarge));
    // the rejected program left memory untouched
    assert_eq!(sim.ram[0x200], 0);
}

#[test]
fn load_places_bytes_at_the_start_address() {
    let mut sim = Simulator::new(None);
    sim.load_program(&[1, 2, 3][..]).unwrap();
    assert_eq!(sim.ram[0x200], 1);
    assert_eq!(sim.ram[0x201], 2);
    assert_eq!(sim.ram[0x202], 3);
    assert_eq!(sim.ram[0x203], 0);
}

#[test]
fn cls_clears_the_grid_and_raises_the_dirty_flag() {
    // Draw one sprite row, acknowledge, clear, and look again.
    let mut bytes = prog(&[0x6A00, 0x6B00, 0xA20A, 0xDAB1, 0x00E0]);
    bytes.push(0xFF); // the sprite row, at 0x20A
    let mut sim = Simulator::new(None);
    sim.load_program(&bytes[..]).unwrap();
    for _ in 0..4 {
        sim.step().unwrap();
    }
    assert!(sim.consume_dirty());
    assert!(pixel(&sim.framebuffer_snapshot(), 0, 0));

    sim.step().unwrap(); // CLS
    let snap = sim.framebuffer_snapshot();
    assert!(snap.iter().all(|&bit| !bit));
    assert!(sim.consume_dirty());
    assert!(!sim.consume_dirty());
}

#[test]
fn draw_wraps_around_both_screen_edges() {
    // An 8x4 all-on sprite at (60, 30) wraps to the opposite edges.
    let mut bytes = prog(&[0x6A3C, 0x6B1E, 0xA208, 0xDAB4]);
    bytes.extend_from_slice(&[0xFF, 0xFF, 0xFF, 0xFF]); // sprite at 0x208
    let mut sim = Simulator::new(None);
    sim.load_program(&bytes[..]).unwrap();
    for _ in 0..4 {
        sim.step().unwrap();
    }
    let snap = sim.framebuffer_snapshot();
    // corners of the wrapped block
    assert!(pixel(&snap, 60, 30));
    assert!(pixel(&snap, 63, 31));
    assert!(pixel(&snap, 0, 0));
    assert!(pixel(&snap, 3, 1));
    assert!(pixel(&snap, 60, 1));
    assert!(pixel(&snap, 3, 30));
    // nothing outside the wrapped block
    assert!(!pixel(&snap, 4, 0));
    assert!(!pixel(&snap, 59, 30));
    assert!(!pixel(&snap, 60, 2));
    assert_eq!(snap.iter().filter(|&&bit| bit).count(), 32);
    assert_eq!(sim.v[0xF], 0);
}

#[test]
fn drawing_twice_cancels_and_reports_collision() {
    let mut bytes = prog(&[0x6A00, 0x6B00, 0xA20A, 0xDAB2, 0xDAB2]);
    bytes.extend_from_slice(&[0xF0, 0x90]); // sprite at 0x20A
    let mut sim = Simulator::new(None);
    sim.load_program(&bytes[..]).unwrap();
    for _ in 0..4 {
        sim.step().unwrap();
    }
    assert_eq!(sim.v[0xF], 0);
    assert!(pixel(&sim.framebuffer_snapshot(), 0, 0));

    sim.step().unwrap(); // the second, identical draw
    assert_eq!(sim.v[0xF], 1);
    let snap = sim.framebuffer_snapshot();
    assert!(snap.iter().all(|&bit| !bit));
}

#[test]
fn await_key_suspends_until_a_press_arrives() {
    let mut sim = Simulator::new(None);
    sim.load_program(&prog(&[0xF50A, 0x6101])[..]).unwrap();
    sim.step().unwrap();
    assert_eq!(sim.await_key, Some(5));
    assert_eq!(sim.pc, 0x202);

    // repeated steps do nothing while waiting
    for _ in 0..3 {
        sim.step().unwrap();
        assert_eq!(sim.pc, 0x202);
        assert_eq!(sim.v[1], 0);
    }

    // a release does not resolve the wait
    sim.set_key_state(7, false);
    assert_eq!(sim.await_key, Some(5));

    // a press stores the key code and resumes execution
    sim.set_key_state(7, true);
    assert_eq!(sim.await_key, None);
    assert_eq!(sim.v[5], 7);
    sim.step().unwrap();
    assert_eq!(sim.v[1], 1);
    assert_eq!(sim.pc, 0x204);
}

#[test]
fn key_states_are_recorded() {
    let mut sim = Simulator::new(None);
    sim.set_key_state(3, true);
    assert!(sim.key[3]);
    sim.set_key_state(3, false);
    assert!(!sim.key[3]);
}
