use chip8::font::glyph_byte;
use chip8::machine::{Chip8Error, Machine, Quirks};
use chip8::pacer::{Pacer, INSTRUCTION_PERIOD_NANOS};

fn machine() -> Machine {
    Machine::new(Quirks::none())
}

#[test]
fn fresh_machine_starts_at_entry_point() {
    let m = machine();
    assert_eq!(m.program_counter, 0x200);
    assert_eq!(m.index_register, 0);
    assert_eq!(m.delay_timer, 0);
    assert_eq!(m.sound_timer, 0);
    assert!(m.variable_registers.iter().all(|&v| v == 0));
    assert!(m.display.iter().all(|&p| !p));
}

#[test]
fn fresh_machine_holds_the_font() {
    let m = machine();
    for d in 0..16u8 {
        for r in 0..5u8 {
            let addr = 0x50 + 5 * (d as usize) + (r as usize);
            assert_eq!(m.memory[addr], glyph_byte(d, r));
        }
    }
    assert_eq!(m.memory[0x50], 0xF0); // first row of the glyph for 0
    assert_eq!(m.memory[0x9F], 0x80); // last row of the glyph for F
}

#[test]
fn load_program_places_bytes_at_entry_point() {
    let mut m = machine();
    let program = vec![0x12, 0x34, 0x56];
    assert!(m.load_program(&program).is_ok());
    assert_eq!(&m.memory[0x200..0x203], &[0x12, 0x34, 0x56]);
    assert_eq!(m.memory[0x203], 0);
}

#[test]
fn too_large_program_is_refused() {
    let mut m = machine();
    let program = vec![0u8; 4096 - 0x200 + 1];
    assert_eq!(m.load_program(&program), Err(Chip8Error::ProgramTooLarge));
    assert!(m.memory[0x200..].iter().all(|&b| b == 0));
    let exact = vec![7u8; 4096 - 0x200];
    assert!(m.load_program(&exact).is_ok());
    assert_eq!(m.memory[4095], 7);
}

#[test]
fn delay_timer_saturates_at_zero() {
    let mut m = machine();
    assert_eq!(m.delay_timer, 0);
    m.tick_timers();
    assert_eq!(m.delay_timer, 0); // never wraps to 255
    assert_eq!(m.sound_timer, 0);
}

#[test]
fn timers_count_down_by_one() {
    let mut m = machine();
    m.delay_timer = 2;
    m.sound_timer = 1;
    m.tick_timers();
    assert_eq!(m.delay_timer, 1);
    assert_eq!(m.sound_timer, 0);
    m.tick_timers();
    assert_eq!(m.delay_timer, 0);
    assert_eq!(m.sound_timer, 0);
}

#[test]
fn frame_buffer_packs_pixels() {
    let mut m = machine();
    m.memory[0x300] = 0x80; // one visible bit
    m.index_register = 0x300;
    assert!(m.draw_sprite(0, 0, 1).is_ok());
    assert!(m.pixel(0, 0));
    assert!(!m.pixel(1, 0));
    let buf = m.frame_buffer();
    assert_eq!(buf.len(), 64 * 32);
    assert_eq!(buf[0], 0xFFFF_FFFF);
    assert_eq!(buf[1], 0);
}

#[test]
fn pacer_releases_one_slot_per_period() {
    let mut p = Pacer::new(100);
    p.accumulate(250);
    assert!(p.try_consume());
    assert!(p.try_consume());
    assert!(!p.try_consume());
    assert_eq!(p.accumulated_nanos, 50);
    p.accumulate(50);
    assert!(p.try_consume());
    assert!(!p.try_consume());
}

#[test]
fn pacer_saturates_instead_of_wrapping() {
    let mut p = Pacer::new(INSTRUCTION_PERIOD_NANOS);
    p.accumulate(u64::MAX);
    p.accumulate(u64::MAX);
    assert_eq!(p.accumulated_nanos, u64::MAX);
    assert!(p.try_consume());
}
