use chip8::Chip8;
use chip8::EmulationError;

fn no_keys() -> [bool; 16] {
    [false; 16]
}

fn boot(rom: Vec<u8>) -> Chip8 {
    let mut vm = Chip8::default();
    vm.load(rom).unwrap();
    vm
}

fn run(vm: &mut Chip8, cycles: usize) {
    let mut i = 0;
    while i < cycles {
        vm.cycle(no_keys()).unwrap();
        i += 1;
    }
}

#[test]
fn load_immediate_and_add_immediate() {
    // Load 5 into V0, add 3 to V0: after two cycles V0 = 8, PC = 516.
    let mut vm = boot(vec![0x60, 0x05, 0x70, 0x03]);
    run(&mut vm, 2);
    assert_eq!(vm.register_value(0), 8);
    assert_eq!(vm.program_counter(), 516);
}

#[test]
fn add_immediate_wraps_without_flag() {
    let mut vm = boot(vec![0x60, 0xFF, 0x70, 0x03]);
    run(&mut vm, 2);
    assert_eq!(vm.register_value(0), 2);
    assert_eq!(vm.register_value(15), 0);
}

#[test]
fn add_with_carry_sets_flag_on_overflow() {
    // V0 = 200, V1 = 100, V0 += V1: 300 wraps to 44, VF = 1.
    let mut vm = boot(vec![0x60, 0xC8, 0x61, 0x64, 0x80, 0x14]);
    run(&mut vm, 3);
    assert_eq!(vm.register_value(0), 44);
    assert_eq!(vm.register_value(15), 1);
}

#[test]
fn add_with_carry_clears_flag_without_overflow() {
    let mut vm = boot(vec![0x60, 0x0A, 0x61, 0x14, 0x80, 0x14]);
    run(&mut vm, 3);
    assert_eq!(vm.register_value(0), 30);
    assert_eq!(vm.register_value(15), 0);
}

#[test]
fn sub_with_borrow_flags_underflow() {
    // V0 = 5, V1 = 10, V0 -= V1: wraps to 251 and VF = 1 on borrow --
    // the machine's own polarity, opposite the canonical convention.
    let mut vm = boot(vec![0x60, 0x05, 0x61, 0x0A, 0x80, 0x15]);
    run(&mut vm, 3);
    assert_eq!(vm.register_value(0), 251);
    assert_eq!(vm.register_value(15), 1);
}

#[test]
fn sub_without_borrow_clears_flag() {
    let mut vm = boot(vec![0x60, 0x0A, 0x61, 0x05, 0x80, 0x15]);
    run(&mut vm, 3);
    assert_eq!(vm.register_value(0), 5);
    assert_eq!(vm.register_value(15), 0);
}

#[test]
fn sub_swapped_flags_underflow() {
    // V0 = 10, V1 = 5, V0 = V1 - V0: wraps to 251 and VF = 1.
    let mut vm = boot(vec![0x60, 0x0A, 0x61, 0x05, 0x80, 0x17]);
    run(&mut vm, 3);
    assert_eq!(vm.register_value(0), 251);
    assert_eq!(vm.register_value(15), 1);
}

#[test]
fn bitwise_or_and_xor_move() {
    let mut vm = boot(vec![
        0x60, 0x0C, 0x61, 0x0A, 0x80, 0x11, // V0 = 0x0C | 0x0A = 0x0E
        0x62, 0x0A, 0x80, 0x22, // V0 = 0x0E & 0x0A = 0x0A
        0x63, 0x06, 0x80, 0x33, // V0 = 0x0A ^ 0x06 = 0x0C
        0x84, 0x00, // V4 = V0
    ]);
    run(&mut vm, 8);
    assert_eq!(vm.register_value(0), 0x0C);
    assert_eq!(vm.register_value(4), 0x0C);
}

#[test]
fn shift_right_captures_low_bit() {
    let mut vm = boot(vec![0x60, 0x05, 0x80, 0x06]);
    run(&mut vm, 2);
    assert_eq!(vm.register_value(0), 2);
    assert_eq!(vm.register_value(15), 1);
}

#[test]
fn shift_left_keeps_raw_top_bit_in_flag() {
    // The flag keeps the masked top bit 0x80, not a normalized 1.
    let mut vm = boot(vec![0x60, 0xFF, 0x80, 0x0E]);
    run(&mut vm, 2);
    assert_eq!(vm.register_value(0), 0xFE);
    assert_eq!(vm.register_value(15), 0x80);
}

#[test]
fn skip_if_equal_immediate() {
    let mut vm = boot(vec![0x30, 0x00]);
    run(&mut vm, 1);
    assert_eq!(vm.program_counter(), 516);
    let mut vm2 = boot(vec![0x30, 0x01]);
    run(&mut vm2, 1);
    assert_eq!(vm2.program_counter(), 514);
}

#[test]
fn skip_if_not_equal_immediate() {
    let mut vm = boot(vec![0x40, 0x01]);
    run(&mut vm, 1);
    assert_eq!(vm.program_counter(), 516);
    let mut vm2 = boot(vec![0x40, 0x00]);
    run(&mut vm2, 1);
    assert_eq!(vm2.program_counter(), 514);
}

#[test]
fn skip_on_register_comparison() {
    // V0 == V1 (both zero): 5xy0 skips.
    let mut vm = boot(vec![0x50, 0x10]);
    run(&mut vm, 1);
    assert_eq!(vm.program_counter(), 516);
    // V0 != V1: 9xy0 skips.
    let mut vm2 = boot(vec![0x60, 0x01, 0x90, 0x10]);
    run(&mut vm2, 2);
    assert_eq!(vm2.program_counter(), 518);
}

#[test]
fn jump_sets_program_counter() {
    let mut vm = boot(vec![0x12, 0x34]);
    run(&mut vm, 1);
    assert_eq!(vm.program_counter(), 0x234);
}

#[test]
fn jump_plus_v0() {
    let mut vm = boot(vec![0x60, 0x04, 0xB2, 0x30]);
    run(&mut vm, 2);
    assert_eq!(vm.program_counter(), 0x234);
}

#[test]
fn call_and_return() {
    let mut vm = boot(vec![
        0x22, 0x08, 0x00, 0x00, 0x00, 0x00, 0x00, 0x00, // call 0x208
        0x00, 0xEE, // at 0x208: return
    ]);
    run(&mut vm, 1);
    assert_eq!(vm.program_counter(), 0x208);
    run(&mut vm, 1);
    assert_eq!(vm.program_counter(), 514);
}

#[test]
fn set_index_and_add_to_index() {
    let mut vm = boot(vec![0xA1, 0x23, 0x60, 0x03, 0xF0, 0x1E]);
    run(&mut vm, 1);
    assert_eq!(vm.memory_index(), 0x123);
    run(&mut vm, 2);
    assert_eq!(vm.memory_index(), 0x126);
}

#[test]
fn add_to_index_truncates_to_twelve_bits() {
    let mut vm = boot(vec![0x60, 0x05, 0xAF, 0xFF, 0xF0, 0x1E]);
    run(&mut vm, 3);
    assert_eq!(vm.memory_index(), 4);
}

#[test]
fn randomize_masks_the_drawn_byte() {
    // A zero mask pins the result to zero whatever was drawn.
    let mut vm = boot(vec![0xC0, 0x00, 0xC1, 0x0F]);
    run(&mut vm, 2);
    assert_eq!(vm.register_value(0), 0);
    assert!(vm.register_value(1) <= 15);
}

#[test]
fn store_bcd_writes_three_digits() {
    // BCD of 255 is (2, 5, 5) at I, I+1, I+2.
    let mut vm = boot(vec![0x60, 0xFF, 0xA3, 0x00, 0xF0, 0x33]);
    run(&mut vm, 3);
    assert_eq!(vm.memory_at(0x300), 2);
    assert_eq!(vm.memory_at(0x301), 5);
    assert_eq!(vm.memory_at(0x302), 5);
}

#[test]
fn store_bcd_of_seven() {
    let mut vm = boot(vec![0x60, 0x07, 0xA3, 0x00, 0xF0, 0x33]);
    run(&mut vm, 3);
    assert_eq!(vm.memory_at(0x300), 0);
    assert_eq!(vm.memory_at(0x301), 0);
    assert_eq!(vm.memory_at(0x302), 7);
}

#[test]
fn register_dump_then_load_round_trips() {
    let mut vm = boot(vec![
        0x60, 0x0B, 0x61, 0x16, 0x62, 0x21, // V0 = 11, V1 = 22, V2 = 33
        0xA3, 0x00, 0xF2, 0x55, // I = 0x300, dump V0..=V2
        0x60, 0x00, 0x61, 0x00, 0x62, 0x00, // wipe them
        0xF2, 0x65, // load V0..=V2 back
    ]);
    run(&mut vm, 5);
    assert_eq!(vm.memory_at(0x300), 11);
    assert_eq!(vm.memory_at(0x301), 22);
    assert_eq!(vm.memory_at(0x302), 33);
    run(&mut vm, 3);
    assert_eq!(vm.register_value(0), 0);
    run(&mut vm, 1);
    assert_eq!(vm.register_value(0), 11);
    assert_eq!(vm.register_value(1), 22);
    assert_eq!(vm.register_value(2), 33);
}

#[test]
fn index_from_sprite_digit_zero() {
    let mut vm = boot(vec![0xA1, 0x23, 0xF0, 0x29]);
    run(&mut vm, 2);
    assert_eq!(vm.memory_index(), 0);
}

#[test]
fn index_from_sprite_digit_eight() {
    let mut vm = boot(vec![0x60, 0x08, 0xF0, 0x29]);
    run(&mut vm, 2);
    assert_eq!(vm.memory_index(), 40);
}

#[test]
fn index_from_sprite_digit_nine_is_unknown() {
    let mut vm = boot(vec![0x60, 0x09, 0xF0, 0x29]);
    run(&mut vm, 1);
    let r = vm.cycle(no_keys());
    assert_eq!(r, Err(EmulationError::UnknownOpcode(0xF029)));
}

#[test]
fn delay_timer_set_and_read() {
    // F015 sets the delay timer from V0; the same cycle's trailing
    // decrement already lowers it by one.  F107 reads it into V1.
    let mut vm = boot(vec![0x60, 0x03, 0xF0, 0x15, 0xF1, 0x07]);
    run(&mut vm, 2);
    assert_eq!(vm.delay_timer(), 2);
    run(&mut vm, 1);
    assert_eq!(vm.register_value(1), 2);
    assert_eq!(vm.delay_timer(), 1);
}

#[test]
fn sound_timer_set() {
    let mut vm = boot(vec![0x60, 0x03, 0xF0, 0x18]);
    run(&mut vm, 2);
    assert_eq!(vm.sound_timer(), 2);
}

#[test]
fn timers_never_go_below_zero() {
    // Timers start at zero; cycles keep them at zero.
    let mut vm = boot(vec![0x12, 0x00]);
    assert_eq!(vm.delay_timer(), 0);
    assert_eq!(vm.sound_timer(), 0);
    run(&mut vm, 5);
    assert_eq!(vm.delay_timer(), 0);
    assert_eq!(vm.sound_timer(), 0);
}

#[test]
fn skip_if_key_pressed() {
    let mut keys = [false; 16];
    keys[3] = true;
    let mut vm = boot(vec![0x60, 0x03, 0xE0, 0x9E]);
    vm.cycle(keys).unwrap();
    vm.cycle(keys).unwrap();
    assert_eq!(vm.program_counter(), 518);
    let mut vm2 = boot(vec![0x60, 0x03, 0xE0, 0x9E]);
    run(&mut vm2, 2);
    assert_eq!(vm2.program_counter(), 516);
}

#[test]
fn skip_if_key_not_pressed() {
    let mut keys = [false; 16];
    keys[3] = true;
    let mut vm = boot(vec![0x60, 0x03, 0xE0, 0xA1]);
    vm.cycle(keys).unwrap();
    vm.cycle(keys).unwrap();
    assert_eq!(vm.program_counter(), 516);
    let mut vm2 = boot(vec![0x60, 0x03, 0xE0, 0xA1]);
    run(&mut vm2, 2);
    assert_eq!(vm2.program_counter(), 518);
}

#[test]
fn wait_for_key_holds_pc_but_ticks_timers() {
    // V0 = 5; delay timer set; then wait-for-key with no key pressed:
    // the program counter stays on the wait instruction while the
    // active timer keeps decrementing each call.
    let mut vm = boot(vec![0x60, 0x05, 0xF0, 0x15, 0xF0, 0x0A]);
    run(&mut vm, 2);
    let waiting_pc = vm.program_counter();
    let delay_before = vm.delay_timer();
    assert_eq!(vm.cycle(no_keys()), Ok(0xF00A));
    assert_eq!(vm.program_counter(), waiting_pc);
    assert_eq!(vm.delay_timer(), delay_before - 1);
    assert_eq!(vm.cycle(no_keys()), Ok(0xF00A));
    assert_eq!(vm.program_counter(), waiting_pc);
    assert_eq!(vm.delay_timer(), delay_before - 2);
}

#[test]
fn wait_for_key_advances_normally_on_a_key() {
    let mut vm = boot(vec![0xF0, 0x0A]);
    let mut keys = [false; 16];
    keys[7] = true;
    vm.cycle(keys).unwrap();
    assert_eq!(vm.program_counter(), 514);
}

#[test]
fn shift_on_the_flag_register_itself() {
    // When X selects register 15 the flag write lands first and the
    // shift then reads the freshly written flag: VF = 5 & 1 = 1, then
    // VF = 1 >> 1 = 0.
    let mut vm = boot(vec![0x6F, 0x05, 0x8F, 0x06]);
    run(&mut vm, 2);
    assert_eq!(vm.register_value(15), 0);
}
