//! Tests of the display plane: XOR drawing, collision, wraparound.

use chip8::cpu::{StepResult, CPU};
use chip8::display::{blit_sprite, clear_plane};

fn pixel(buf: &[u32], x: usize, y: usize) -> bool {
    buf[y * 64 + x] != 0
}

#[test]
fn clear_turns_every_pixel_off() {
    let mut buf = vec![7u32; 2048];
    clear_plane(&mut buf);
    assert!(buf.iter().all(|&p| p == 0));
}

#[test]
fn draw_sets_pixels_and_reports_no_collision_on_blank() {
    let mut buf = vec![0u32; 2048];
    let sprite = vec![0b1010_0001u8];
    let coll = blit_sprite(&mut buf, &sprite, 0, 0);
    assert!(!coll);
    assert!(pixel(&buf, 0, 0));
    assert!(!pixel(&buf, 1, 0));
    assert!(pixel(&buf, 2, 0));
    assert!(!pixel(&buf, 3, 0));
    assert!(pixel(&buf, 7, 0));
    assert!(!pixel(&buf, 8, 0));
    assert!(!pixel(&buf, 0, 1));
}

#[test]
fn double_draw_restores_plane_and_collides() {
    let mut buf = vec![0u32; 2048];
    buf[5] = u32::MAX;
    let before: Vec<bool> = buf.iter().map(|&p| p != 0).collect();
    let sprite = vec![0xFFu8, 0x81];
    let c1 = blit_sprite(&mut buf, &sprite, 2, 10);
    assert!(!c1);
    let c2 = blit_sprite(&mut buf, &sprite, 2, 10);
    assert!(c2);
    let after: Vec<bool> = buf.iter().map(|&p| p != 0).collect();
    assert_eq!(before, after);
}

#[test]
fn drawing_over_lit_pixel_collides_and_erases() {
    let mut buf = vec![0u32; 2048];
    let sprite = vec![0x80u8];
    let c1 = blit_sprite(&mut buf, &sprite, 3, 4);
    assert!(!c1);
    assert!(pixel(&buf, 3, 4));
    let c2 = blit_sprite(&mut buf, &sprite, 3, 4);
    assert!(c2);
    assert!(!pixel(&buf, 3, 4));
}

#[test]
fn sprite_wraps_at_right_edge() {
    let mut buf = vec![0u32; 2048];
    let sprite = vec![0xFFu8];
    let coll = blit_sprite(&mut buf, &sprite, 60, 5);
    assert!(!coll);
    for x in 0..64 {
        for y in 0..32 {
            let expected = y == 5 && (x >= 60 || x < 4);
            assert_eq!(pixel(&buf, x, y), expected, "pixel ({}, {})", x, y);
        }
    }
}

#[test]
fn sprite_wraps_at_bottom_edge() {
    let mut buf = vec![0u32; 2048];
    let sprite = vec![0x80u8, 0x80];
    let coll = blit_sprite(&mut buf, &sprite, 0, 31);
    assert!(!coll);
    assert!(pixel(&buf, 0, 31));
    assert!(pixel(&buf, 0, 0));
    assert!(!pixel(&buf, 0, 1));
    assert!(!pixel(&buf, 0, 30));
}

#[test]
fn origin_coordinates_wrap_too() {
    let mut buf = vec![0u32; 2048];
    let sprite = vec![0x80u8];
    let coll = blit_sprite(&mut buf, &sprite, 200, 100);
    assert!(!coll);
    assert!(pixel(&buf, 200 % 64, 100 % 32));
}

#[test]
fn draw_via_step_sets_flag_on_erase() {
    let mut cpu = CPU::new();
    let mut buf = vec![0u32; 2048];
    let keys = vec![false; 16];
    cpu.i_register = 0x600;
    cpu.memory[0x600] = 0xF0;
    cpu.registers[0] = 60;
    cpu.registers[1] = 5;
    cpu.memory[512] = 0xD0;
    cpu.memory[513] = 0x11;
    let r1 = cpu.step(&mut buf, &keys);
    assert_eq!(r1, StepResult::Updated);
    assert_eq!(cpu.registers[15], 0);
    assert_eq!(cpu.program_counter, 514);
    assert!(pixel(&buf, 60, 5));
    assert!(pixel(&buf, 63, 5));
    assert!(!pixel(&buf, 0, 5));
    cpu.program_counter = 512;
    let r2 = cpu.step(&mut buf, &keys);
    assert_eq!(r2, StepResult::Updated);
    assert_eq!(cpu.registers[15], 1);
    assert!(buf.iter().all(|&p| p == 0));
}

#[test]
fn font_glyph_zero_draws_its_bitmap() {
    let mut cpu = CPU::new();
    let mut buf = vec![0u32; 2048];
    let keys = vec![false; 16];
    cpu.load_sprites();
    cpu.registers[2] = 0;
    cpu.set_i_to_sprite(2);
    cpu.memory[512] = 0xD0;
    cpu.memory[513] = 0x05;
    cpu.registers[0] = 0;
    let r = cpu.step(&mut buf, &keys);
    assert_eq!(r, StepResult::Updated);
    let rows = [0xF0u8, 0x90, 0x90, 0x90, 0xF0];
    for (y, row) in rows.iter().enumerate() {
        for x in 0..8 {
            let expected = (row >> (7 - x)) & 1 == 1;
            assert_eq!(pixel(&buf, x, y), expected, "pixel ({}, {})", x, y);
        }
    }
}

#[test]
fn zero_height_sprite_draws_nothing() {
    let mut cpu = CPU::new();
    let mut buf = vec![0u32; 2048];
    let keys = vec![false; 16];
    cpu.registers[15] = 1;
    cpu.memory[512] = 0xD0;
    cpu.memory[513] = 0x10;
    let r = cpu.step(&mut buf, &keys);
    assert_eq!(r, StepResult::Updated);
    assert_eq!(cpu.registers[15], 0);
    assert!(buf.iter().all(|&p| p == 0));
}
