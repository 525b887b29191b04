use chip8::Chip8;

fn no_keys() -> [bool; 16] {
    [false; 16]
}

fn boot(rom: Vec<u8>) -> Chip8 {
    let mut vm = Chip8::default();
    vm.load(rom).unwrap();
    vm
}

fn run(vm: &mut Chip8, cycles: usize) {
    let mut i = 0;
    while i < cycles {
        vm.cycle(no_keys()).unwrap();
        i += 1;
    }
}

#[test]
fn draw_font_zero_glyph() {
    // I = 0 (glyph 0), draw 5 rows at (0, 0).  The glyph's first row is
    // 0xF0: the four leftmost pixels lit, the next four dark.
    let mut vm = boot(vec![0xF0, 0x29, 0xD0, 0x15]);
    run(&mut vm, 2);
    let fb = vm.framebuffer();
    assert!(fb[0] && fb[1] && fb[2] && fb[3]);
    assert!(!fb[4] && !fb[5] && !fb[6] && !fb[7]);
    // Second row 0x90: only the outer pixels of the glyph lit.
    assert!(fb[64] && !fb[65] && !fb[66] && fb[67]);
    assert_eq!(vm.register_value(15), 0);
}

#[test]
fn draw_wraps_around_the_buffer_edge() {
    // Drawing at x = 62 runs past the row: the lit cells continue at
    // the next linear index, wrapping modulo 2048.
    let mut vm = boot(vec![0x60, 0x3E, 0xF1, 0x29, 0xD0, 0x25]);
    run(&mut vm, 3);
    let fb = vm.framebuffer();
    assert!(fb[62] && fb[63] && fb[64] && fb[65]);
    assert!(!fb[66]);
}

#[test]
fn clear_screen_completes_to_a_blank_buffer() {
    // Draw a glyph at (5, 2), clear, draw at (0, 0): the result equals
    // drawing at (0, 0) on a machine that never drew at all.
    let mut vm = boot(vec![
        0x60, 0x05, 0x61, 0x02, 0xF2, 0x29, 0xD0, 0x15, // draw glyph 0 at (5, 2)
        0x00, 0xE0, // clear screen
        0x60, 0x00, 0x61, 0x00, 0xD0, 0x15, // draw glyph 0 at (0, 0)
    ]);
    run(&mut vm, 8);
    let mut fresh = boot(vec![0xF0, 0x29, 0xD0, 0x15]);
    run(&mut fresh, 2);
    assert_eq!(vm.framebuffer(), fresh.framebuffer());
}

#[test]
fn clear_screen_turns_every_cell_off() {
    let mut vm = boot(vec![0xF0, 0x29, 0xD0, 0x15, 0x00, 0xE0]);
    run(&mut vm, 3);
    let fb = vm.framebuffer();
    assert_eq!(fb.len(), 2048);
    for cell in fb.iter() {
        assert!(!cell);
    }
}

#[test]
fn drawing_twice_restores_the_framebuffer() {
    // The XOR blit is its own inverse: after the second identical draw
    // every cell is back where it started (blank here), and the second
    // draw collides with everything the first one lit, so VF = 1.
    let mut vm = boot(vec![0xF0, 0x29, 0xD0, 0x15, 0xD0, 0x15]);
    run(&mut vm, 2);
    assert_eq!(vm.register_value(15), 0);
    run(&mut vm, 1);
    for cell in vm.framebuffer().iter() {
        assert!(!cell);
    }
    assert_eq!(vm.register_value(15), 1);
}

#[test]
fn drawing_twice_restores_a_nonempty_background() {
    // Lay a glyph at (20, 10), then draw another glyph at (0, 0) twice:
    // the background glyph survives untouched.
    let mut vm = boot(vec![
        0x60, 0x14, 0x61, 0x0A, 0xF2, 0x29, 0xD0, 0x15, // glyph 0 at (20, 10)
        0x60, 0x00, 0x61, 0x00, 0x62, 0x01, 0xF2, 0x29, // I = glyph 1
        0xD0, 0x15, 0xD0, 0x15, // draw it twice at (0, 0)
    ]);
    run(&mut vm, 8);
    let background: Vec<bool> = vm.framebuffer().clone();
    run(&mut vm, 2);
    assert_eq!(vm.framebuffer(), &background);
}

#[test]
fn draw_zero_height_touches_nothing() {
    let mut vm = boot(vec![0xD0, 0x10]);
    run(&mut vm, 1);
    for cell in vm.framebuffer().iter() {
        assert!(!cell);
    }
    assert_eq!(vm.register_value(15), 0);
}
