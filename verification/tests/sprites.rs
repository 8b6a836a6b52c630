use chip8::display::Display;

#[test]
fn new_screen_is_blank() {
    let d = Display::new();
    assert_eq!(d.memory.len(), 2048);
    assert!(d.memory.iter().all(|&c| c == 0));
}

#[test]
fn draw_sets_pixels_and_reports_no_collision_on_blank() {
    let mut d = Display::new();
    let collision = d.draw(4, 2, &[0b1010_0001]);
    assert_eq!(collision, 0);
    assert_eq!(d.memory[2 * 64 + 4], 1);
    assert_eq!(d.memory[2 * 64 + 5], 0);
    assert_eq!(d.memory[2 * 64 + 6], 1);
    assert_eq!(d.memory[2 * 64 + 11], 1); // least significant bit, column 4 + 7
}

#[test]
fn draw_twice_restores_screen_and_collides() {
    let mut d = Display::new();
    let sprite = [0xF0, 0x90, 0x90, 0x90, 0xF0]; // the 0 glyph
    let first = d.draw(10, 5, &sprite);
    assert_eq!(first, 0);
    let second = d.draw(10, 5, &sprite);
    assert_eq!(second, 1); // every touched pixel was lit
    assert!(d.memory.iter().all(|&c| c == 0)); // XOR undid the draw
}

#[test]
fn partial_overlap_collides_but_keeps_disjoint_pixels() {
    let mut d = Display::new();
    d.draw(0, 0, &[0b1000_0000]);
    let collision = d.draw(0, 0, &[0b1100_0000]);
    assert_eq!(collision, 1);
    assert_eq!(d.memory[0], 0); // toggled back off
    assert_eq!(d.memory[1], 1); // newly lit
}

#[test]
fn columns_wrap_past_the_right_edge() {
    let mut d = Display::new();
    let collision = d.draw(62, 0, &[0b1111_0000]);
    assert_eq!(collision, 0);
    assert_eq!(d.memory[62], 1);
    assert_eq!(d.memory[63], 1);
    assert_eq!(d.memory[0], 1); // wrapped to the left edge
    assert_eq!(d.memory[1], 1);
}

#[test]
fn rows_wrap_past_the_bottom_edge() {
    let mut d = Display::new();
    let collision = d.draw(0, 31, &[0b1000_0000, 0b1000_0000]);
    assert_eq!(collision, 0);
    assert_eq!(d.memory[31 * 64], 1);
    assert_eq!(d.memory[0], 1); // second row wrapped to the top
}

#[test]
fn coordinates_reduce_modulo_grid_size() {
    let mut d = Display::new();
    d.draw(64 + 3, 32 + 1, &[0b1000_0000]);
    assert_eq!(d.memory[1 * 64 + 3], 1);
}

#[test]
fn clear_screen_unlights_everything() {
    let mut d = Display::new();
    d.draw(1, 1, &[0xFF]);
    d.clear_screen();
    assert!(d.memory.iter().all(|&c| c == 0));
}
