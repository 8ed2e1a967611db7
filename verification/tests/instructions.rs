use chip8::machine::{Chip8Error, Machine, Quirks};

fn machine() -> Machine {
    Machine::new(Quirks::none())
}

#[test]
fn add_with_carry_wraps_and_sets_vf() {
    let mut m = machine();
    assert!(m.execute(0x60FF, 0, 0).is_ok()); // V0 := 0xFF
    assert!(m.execute(0x6101, 0, 0).is_ok()); // V1 := 1
    assert!(m.execute(0x8014, 0, 0).is_ok()); // V0 := V0 + V1
    assert_eq!(m.variable_registers[0], 0x00);
    assert_eq!(m.variable_registers[0xF], 1);
}

#[test]
fn add_without_carry_clears_vf() {
    let mut m = machine();
    assert!(m.execute(0x6002, 0, 0).is_ok());
    assert!(m.execute(0x6103, 0, 0).is_ok());
    assert!(m.execute(0x8014, 0, 0).is_ok());
    assert_eq!(m.variable_registers[0], 5);
    assert_eq!(m.variable_registers[0xF], 0);
}

#[test]
fn sub_without_borrow_sets_vf() {
    let mut m = machine();
    assert!(m.execute(0x6005, 0, 0).is_ok()); // V0 := 5
    assert!(m.execute(0x6103, 0, 0).is_ok()); // V1 := 3
    assert!(m.execute(0x8015, 0, 0).is_ok()); // V0 := V0 - V1
    assert_eq!(m.variable_registers[0], 2);
    assert_eq!(m.variable_registers[0xF], 1);
}

#[test]
fn sub_with_borrow_clears_vf() {
    let mut m = machine();
    assert!(m.execute(0x6003, 0, 0).is_ok()); // V0 := 3
    assert!(m.execute(0x6105, 0, 0).is_ok()); // V1 := 5
    assert!(m.execute(0x8015, 0, 0).is_ok()); // V0 := V0 - V1
    assert_eq!(m.variable_registers[0], 0xFE);
    assert_eq!(m.variable_registers[0xF], 0);
}

#[test]
fn reverse_sub_follows_same_polarity() {
    let mut m = machine();
    assert!(m.execute(0x6003, 0, 0).is_ok()); // V0 := 3
    assert!(m.execute(0x6105, 0, 0).is_ok()); // V1 := 5
    assert!(m.execute(0x8017, 0, 0).is_ok()); // V0 := V1 - V0
    assert_eq!(m.variable_registers[0], 2);
    assert_eq!(m.variable_registers[0xF], 1);
}

#[test]
fn logic_ops_combine_registers() {
    let mut m = machine();
    assert!(m.execute(0x60F0, 0, 0).is_ok());
    assert!(m.execute(0x610F, 0, 0).is_ok());
    assert!(m.execute(0x8011, 0, 0).is_ok()); // OR
    assert_eq!(m.variable_registers[0], 0xFF);
    assert!(m.execute(0x8012, 0, 0).is_ok()); // AND
    assert_eq!(m.variable_registers[0], 0x0F);
    assert!(m.execute(0x8013, 0, 0).is_ok()); // XOR
    assert_eq!(m.variable_registers[0], 0x00);
    assert!(m.execute(0x8010, 0, 0).is_ok()); // copy
    assert_eq!(m.variable_registers[0], 0x0F);
}

#[test]
fn shift_right_copies_vy_without_quirk() {
    let mut m = machine();
    assert!(m.execute(0x6105, 0, 0).is_ok()); // V1 := 0b101
    assert!(m.execute(0x8016, 0, 0).is_ok()); // V0 := V1 >> 1
    assert_eq!(m.variable_registers[0], 2);
    assert_eq!(m.variable_registers[0xF], 1);
}

#[test]
fn shift_right_ignores_vy_with_quirk() {
    let mut m = Machine::new(Quirks {
        bitshift_ignores_vy: true,
        jump_with_offset_uses_vx: false,
        add_to_index_ignores_overflow: false,
        store_and_load_increment_index: false,
    });
    assert!(m.execute(0x6004, 0, 0).is_ok()); // V0 := 4
    assert!(m.execute(0x6105, 0, 0).is_ok()); // V1 := 5, must be ignored
    assert!(m.execute(0x8016, 0, 0).is_ok()); // V0 := V0 >> 1
    assert_eq!(m.variable_registers[0], 2);
    assert_eq!(m.variable_registers[0xF], 0);
}

#[test]
fn shift_left_reports_top_bit() {
    let mut m = machine();
    assert!(m.execute(0x6181, 0, 0).is_ok()); // V1 := 0b1000_0001
    assert!(m.execute(0x801E, 0, 0).is_ok()); // V0 := V1 << 1
    assert_eq!(m.variable_registers[0], 0x02);
    assert_eq!(m.variable_registers[0xF], 1);
}

#[test]
fn flag_write_wins_when_destination_is_vf() {
    let mut m = machine();
    assert!(m.execute(0x6FFF, 0, 0).is_ok()); // VF := 0xFF
    assert!(m.execute(0x6101, 0, 0).is_ok()); // V1 := 1
    assert!(m.execute(0x8F14, 0, 0).is_ok()); // VF := VF + V1, then flag
    assert_eq!(m.variable_registers[0xF], 1);
}

#[test]
fn random_byte_is_masked() {
    let mut m = machine();
    assert!(m.execute(0xC0F0, 0xAB, 0).is_ok());
    assert_eq!(m.variable_registers[0], 0xA0);
    assert!(m.execute(0xC10F, 0xAB, 0).is_ok());
    assert_eq!(m.variable_registers[1], 0x0B);
}

#[test]
fn jump_sets_program_counter() {
    let mut m = machine();
    assert!(m.execute(0x1345, 0, 0).is_ok());
    assert_eq!(m.program_counter, 0x345);
}

#[test]
fn jump_with_offset_adds_v0_without_quirk() {
    let mut m = machine();
    assert!(m.execute(0x6005, 0, 0).is_ok()); // V0 := 5
    assert!(m.execute(0xB300, 0, 0).is_ok());
    assert_eq!(m.program_counter, 0x305);
}

#[test]
fn jump_with_offset_adds_vx_with_quirk() {
    let mut m = Machine::new(Quirks {
        bitshift_ignores_vy: false,
        jump_with_offset_uses_vx: true,
        add_to_index_ignores_overflow: false,
        store_and_load_increment_index: false,
    });
    assert!(m.execute(0x6105, 0, 0).is_ok()); // V1 := 5
    assert!(m.execute(0xB100, 0, 0).is_ok()); // x = 1
    assert_eq!(m.program_counter, 0x105);
}

#[test]
fn call_and_return_use_the_stack() {
    let mut m = machine();
    assert!(m.execute(0x2400, 0, 0).is_ok()); // call 0x400 from 0x200
    assert_eq!(m.program_counter, 0x400);
    assert!(m.execute(0x00EE, 0, 0).is_ok()); // return
    assert_eq!(m.program_counter, 0x200);
}

#[test]
fn return_on_empty_stack_is_underflow() {
    let mut m = machine();
    let r = m.execute(0x00EE, 0, 0);
    assert_eq!(r, Err(Chip8Error::StackUnderflow));
    assert_eq!(m.program_counter, 0x200);
}

#[test]
fn seventeenth_nested_call_overflows() {
    let mut m = machine();
    for _ in 0..16 {
        assert!(m.execute(0x2300, 0, 0).is_ok());
    }
    let r = m.execute(0x2300, 0, 0);
    assert_eq!(r, Err(Chip8Error::StackOverflow));
}

#[test]
fn unknown_instruction_is_reported() {
    let mut m = machine();
    assert_eq!(m.execute(0x0123, 0, 0), Err(Chip8Error::UnknownInstruction(0x0123)));
    assert_eq!(m.execute(0x5121, 0, 0), Err(Chip8Error::UnknownInstruction(0x5121)));
    assert_eq!(m.execute(0x8008, 0, 0), Err(Chip8Error::UnknownInstruction(0x8008)));
    assert_eq!(m.execute(0x9121, 0, 0), Err(Chip8Error::UnknownInstruction(0x9121)));
    assert_eq!(m.execute(0xE000, 0, 0), Err(Chip8Error::UnknownInstruction(0xE000)));
    assert_eq!(m.execute(0xF0FF, 0, 0), Err(Chip8Error::UnknownInstruction(0xF0FF)));
}

#[test]
fn set_and_read_timers() {
    let mut m = machine();
    assert!(m.execute(0x602A, 0, 0).is_ok()); // V0 := 42
    assert!(m.execute(0xF015, 0, 0).is_ok()); // delay := V0
    assert!(m.execute(0xF018, 0, 0).is_ok()); // sound := V0
    assert_eq!(m.delay_timer, 42);
    assert_eq!(m.sound_timer, 42);
    assert!(m.execute(0xF107, 0, 0).is_ok()); // V1 := delay
    assert_eq!(m.variable_registers[1], 42);
}

#[test]
fn add_to_index_flags_overflow_without_quirk() {
    let mut m = machine();
    assert!(m.execute(0xAFFF, 0, 0).is_ok()); // index := 0xFFF
    assert!(m.execute(0x6001, 0, 0).is_ok()); // V0 := 1
    assert!(m.execute(0xF01E, 0, 0).is_ok()); // index += V0
    assert_eq!(m.index_register, 0x1000);
    assert_eq!(m.variable_registers[0xF], 1);
}

#[test]
fn add_to_index_stays_silent_with_quirk() {
    let mut m = Machine::new(Quirks {
        bitshift_ignores_vy: false,
        jump_with_offset_uses_vx: false,
        add_to_index_ignores_overflow: true,
        store_and_load_increment_index: false,
    });
    assert!(m.execute(0xAFFF, 0, 0).is_ok());
    assert!(m.execute(0x6001, 0, 0).is_ok());
    assert!(m.execute(0xF01E, 0, 0).is_ok());
    assert_eq!(m.index_register, 0x1000);
    assert_eq!(m.variable_registers[0xF], 0);
}

#[test]
fn bcd_writes_three_digits_to_memory() {
    let mut m = machine();
    assert!(m.execute(0x607B, 0, 0).is_ok()); // V0 := 123
    assert!(m.execute(0xA300, 0, 0).is_ok()); // index := 0x300
    assert!(m.execute(0xF033, 0, 0).is_ok());
    assert_eq!(m.memory[0x300], 1);
    assert_eq!(m.memory[0x301], 2);
    assert_eq!(m.memory[0x302], 3);
}

#[test]
fn bcd_near_end_of_memory_fails() {
    let mut m = machine();
    assert!(m.execute(0xAFFE, 0, 0).is_ok()); // index := 0xFFE
    assert_eq!(m.execute(0xF033, 0, 0), Err(Chip8Error::BcdOutOfBounds));
}

#[test]
fn store_and_load_register_range() {
    let mut m = machine();
    assert!(m.execute(0x6011, 0, 0).is_ok());
    assert!(m.execute(0x6122, 0, 0).is_ok());
    assert!(m.execute(0x6233, 0, 0).is_ok());
    assert!(m.execute(0xA300, 0, 0).is_ok());
    assert!(m.execute(0xF255, 0, 0).is_ok()); // store V0..=V2
    assert_eq!(&m.memory[0x300..0x303], &[0x11, 0x22, 0x33]);
    assert_eq!(m.index_register, 0x300);
    let mut m2 = machine();
    m2.memory[0x300] = 0x44;
    m2.memory[0x301] = 0x55;
    assert!(m2.execute(0xA300, 0, 0).is_ok());
    assert!(m2.execute(0xF165, 0, 0).is_ok()); // load V0..=V1
    assert_eq!(m2.variable_registers[0], 0x44);
    assert_eq!(m2.variable_registers[1], 0x55);
    assert_eq!(m2.variable_registers[2], 0);
}

#[test]
fn store_increments_index_with_quirk() {
    let mut m = Machine::new(Quirks {
        bitshift_ignores_vy: false,
        jump_with_offset_uses_vx: false,
        add_to_index_ignores_overflow: false,
        store_and_load_increment_index: true,
    });
    assert!(m.execute(0xA300, 0, 0).is_ok());
    assert!(m.execute(0xF255, 0, 0).is_ok());
    assert_eq!(m.index_register, 0x302);
}

#[test]
fn register_range_past_memory_fails() {
    let mut m = machine();
    assert!(m.execute(0xAFFF, 0, 0).is_ok()); // index := 0xFFF
    assert_eq!(m.execute(0xF155, 0, 0), Err(Chip8Error::RegisterRangeOutOfBounds));
    assert_eq!(m.execute(0xF165, 0, 0), Err(Chip8Error::RegisterRangeOutOfBounds));
}

#[test]
fn key_skip_if_pressed() {
    let mut m = machine();
    assert!(m.execute(0x6003, 0, 0).is_ok()); // V0 := 3
    let pc = m.program_counter;
    assert!(m.execute(0xE09E, 0, 1 << 3).is_ok());
    assert_eq!(m.program_counter, pc + 2);
    assert!(m.execute(0xE09E, 0, 0).is_ok());
    assert_eq!(m.program_counter, pc + 2);
}

#[test]
fn key_skip_if_not_pressed() {
    let mut m = machine();
    assert!(m.execute(0x6003, 0, 0).is_ok());
    let pc = m.program_counter;
    assert!(m.execute(0xE0A1, 0, 1 << 3).is_ok());
    assert_eq!(m.program_counter, pc);
    assert!(m.execute(0xE0A1, 0, 0).is_ok());
    assert_eq!(m.program_counter, pc + 2);
}

#[test]
fn wait_for_key_rewinds_until_pressed() {
    let mut m = machine();
    let pc = m.program_counter;
    assert!(m.execute(0xF00A, 0, 0).is_ok());
    assert_eq!(m.program_counter, pc - 2); // refetch the same instruction
    m.program_counter = pc;
    assert!(m.execute(0xF00A, 0, (1 << 5) | (1 << 2)).is_ok());
    assert_eq!(m.program_counter, pc);
    assert_eq!(m.variable_registers[0], 2); // the lowest pressed key
}
