//! Tests of the individual instruction handlers.

use chip8::cpu::CPU;

#[test]
fn copy_sets_x_and_keeps_y() {
    let mut cpu = CPU::new();
    cpu.registers[3] = 0x11;
    cpu.registers[7] = 0x99;
    cpu.store(3, 7);
    assert_eq!(cpu.registers[3], 0x99);
    assert_eq!(cpu.registers[7], 0x99);
}

#[test]
fn add_overflow_sets_flag() {
    let mut cpu = CPU::new();
    cpu.registers[0] = 0xFF;
    cpu.registers[1] = 0x01;
    cpu.add(0, 1);
    assert_eq!(cpu.registers[0], 0x00);
    assert_eq!(cpu.registers[15], 1);
}

#[test]
fn add_without_overflow_clears_flag() {
    let mut cpu = CPU::new();
    cpu.registers[15] = 1;
    cpu.registers[0] = 2;
    cpu.registers[1] = 3;
    cpu.add(0, 1);
    assert_eq!(cpu.registers[0], 5);
    assert_eq!(cpu.registers[15], 0);
}

#[test]
fn sub_underflow_wraps_and_clears_flag() {
    let mut cpu = CPU::new();
    cpu.registers[0] = 0x01;
    cpu.registers[1] = 0x02;
    cpu.sub(0, 1);
    assert_eq!(cpu.registers[0], 0xFF);
    assert_eq!(cpu.registers[15], 0);
}

#[test]
fn sub_without_borrow_sets_flag() {
    let mut cpu = CPU::new();
    cpu.registers[0] = 5;
    cpu.registers[1] = 3;
    cpu.sub(0, 1);
    assert_eq!(cpu.registers[0], 2);
    assert_eq!(cpu.registers[15], 1);
}

#[test]
fn sub_equal_values_clears_flag() {
    let mut cpu = CPU::new();
    cpu.registers[0] = 4;
    cpu.registers[1] = 4;
    cpu.sub(0, 1);
    assert_eq!(cpu.registers[0], 0);
    assert_eq!(cpu.registers[15], 0);
}

#[test]
fn subn_stores_y_minus_x() {
    let mut cpu = CPU::new();
    cpu.registers[2] = 3;
    cpu.registers[5] = 10;
    cpu.subn(2, 5);
    assert_eq!(cpu.registers[2], 7);
    assert_eq!(cpu.registers[15], 1);
    cpu.registers[2] = 10;
    cpu.registers[5] = 3;
    cpu.subn(2, 5);
    assert_eq!(cpu.registers[2], 0xF9);
    assert_eq!(cpu.registers[15], 0);
}

#[test]
fn shr_reports_low_bit() {
    let mut cpu = CPU::new();
    cpu.registers[4] = 0x05;
    cpu.shr(4);
    assert_eq!(cpu.registers[4], 0x02);
    assert_eq!(cpu.registers[15], 1);
    cpu.shr(4);
    assert_eq!(cpu.registers[4], 0x01);
    assert_eq!(cpu.registers[15], 0);
}

#[test]
fn shl_reports_high_bit() {
    let mut cpu = CPU::new();
    cpu.registers[4] = 0x81;
    cpu.shl(4);
    assert_eq!(cpu.registers[4], 0x02);
    assert_eq!(cpu.registers[15], 1);
    cpu.shl(4);
    assert_eq!(cpu.registers[4], 0x04);
    assert_eq!(cpu.registers[15], 0);
}

#[test]
fn bitwise_ops() {
    let mut cpu = CPU::new();
    cpu.registers[0] = 0b1100;
    cpu.registers[1] = 0b1010;
    cpu.or(0, 1);
    assert_eq!(cpu.registers[0], 0b1110);
    cpu.registers[0] = 0b1100;
    cpu.and(0, 1);
    assert_eq!(cpu.registers[0], 0b1000);
    cpu.registers[0] = 0b1100;
    cpu.xor(0, 1);
    assert_eq!(cpu.registers[0], 0b0110);
}

#[test]
fn add_imm_wraps_without_flag() {
    let mut cpu = CPU::new();
    cpu.registers[15] = 0;
    cpu.registers[6] = 0xF0;
    cpu.add_i(6, 0x20);
    assert_eq!(cpu.registers[6], 0x10);
    assert_eq!(cpu.registers[15], 0);
}

#[test]
fn bcd_of_234() {
    let mut cpu = CPU::new();
    cpu.registers[2] = 234;
    cpu.i_register = 0x300;
    cpu.store_bcd(2);
    assert_eq!(cpu.memory[0x300], 2);
    assert_eq!(cpu.memory[0x301], 3);
    assert_eq!(cpu.memory[0x302], 4);
}

#[test]
fn bcd_of_7_pads_with_zeros() {
    let mut cpu = CPU::new();
    cpu.registers[2] = 7;
    cpu.i_register = 0x300;
    cpu.store_bcd(2);
    assert_eq!(cpu.memory[0x300], 0);
    assert_eq!(cpu.memory[0x301], 0);
    assert_eq!(cpu.memory[0x302], 7);
}

#[test]
fn bcd_wraps_at_end_of_memory() {
    let mut cpu = CPU::new();
    cpu.registers[0] = 159;
    cpu.i_register = 4095;
    cpu.store_bcd(0);
    assert_eq!(cpu.memory[4095], 1);
    assert_eq!(cpu.memory[0], 5);
    assert_eq!(cpu.memory[1], 9);
}

#[test]
fn store_and_load_registers_round_trip() {
    let mut cpu = CPU::new();
    for r in 0..=5u8 {
        cpu.registers[r as usize] = 10 + r;
    }
    cpu.i_register = 0x400;
    cpu.reg_to_mem(5);
    for r in 0..=5usize {
        assert_eq!(cpu.memory[0x400 + r], 10 + r as u8);
    }
    assert_eq!(cpu.memory[0x406], 0);
    let mut other = CPU::new();
    other.memory = cpu.memory.clone();
    other.i_register = 0x400;
    other.registers[9] = 0xAA;
    other.mem_to_reg(5);
    for r in 0..=5usize {
        assert_eq!(other.registers[r], 10 + r as u8);
    }
    assert_eq!(other.registers[9], 0xAA);
}

#[test]
fn store_registers_wraps_at_end_of_memory() {
    let mut cpu = CPU::new();
    cpu.registers[0] = 0xAB;
    cpu.registers[1] = 0xCD;
    cpu.i_register = 4095;
    cpu.reg_to_mem(1);
    assert_eq!(cpu.memory[4095], 0xAB);
    assert_eq!(cpu.memory[0], 0xCD);
}

#[test]
fn add_to_index_wraps() {
    let mut cpu = CPU::new();
    cpu.i_register = 0xFFFF;
    cpu.registers[0] = 2;
    cpu.add_to_i(0);
    assert_eq!(cpu.i_register, 1);
}

#[test]
fn sprite_address_is_five_per_glyph() {
    let mut cpu = CPU::new();
    cpu.registers[3] = 0xF;
    cpu.set_i_to_sprite(3);
    assert_eq!(cpu.i_register, 75);
}

#[test]
fn timer_setters_and_reader() {
    let mut cpu = CPU::new();
    cpu.registers[1] = 42;
    cpu.set_delay(1);
    assert_eq!(cpu.delay_register, 42);
    cpu.set_sound(1);
    assert_eq!(cpu.sound_register, 42);
    cpu.load_delay(0);
    assert_eq!(cpu.registers[0], 42);
}

#[test]
fn wait_for_key_takes_lowest_held() {
    let mut cpu = CPU::new();
    let mut keys = vec![false; 16];
    keys[9] = true;
    keys[3] = true;
    cpu.wait_for_key(0, &keys);
    assert_eq!(cpu.registers[0], 3);
    assert_eq!(cpu.program_counter, 514);
}

#[test]
fn wait_for_key_holds_still_without_keys() {
    let mut cpu = CPU::new();
    let keys = vec![false; 16];
    cpu.registers[0] = 7;
    cpu.wait_for_key(0, &keys);
    assert_eq!(cpu.registers[0], 7);
    assert_eq!(cpu.program_counter, 512);
}

#[test]
fn skips_move_the_program_counter() {
    let mut cpu = CPU::new();
    cpu.registers[0] = 5;
    cpu.skip(0, 5);
    assert_eq!(cpu.program_counter, 514);
    cpu.skip(0, 6);
    assert_eq!(cpu.program_counter, 514);
    cpu.skip_if_not(0, 6);
    assert_eq!(cpu.program_counter, 516);
    cpu.registers[1] = 5;
    cpu.skip_r(0, 1);
    assert_eq!(cpu.program_counter, 518);
    cpu.skip_r_not(0, 1);
    assert_eq!(cpu.program_counter, 518);
}

#[test]
fn font_is_loaded_at_zero() {
    let mut cpu = CPU::new();
    cpu.load_sprites();
    assert_eq!(cpu.memory[0], 0xF0);
    assert_eq!(cpu.memory[4], 0xF0);
    assert_eq!(cpu.memory[75], 0xF0);
    assert_eq!(cpu.memory[79], 0x80);
    assert_eq!(cpu.memory[80], 0);
}

#[test]
fn program_loads_at_512() {
    let mut cpu = CPU::new();
    let rom = vec![0x60, 0x2A, 0x12, 0x00];
    cpu.load_program(&rom);
    assert_eq!(cpu.memory[512], 0x60);
    assert_eq!(cpu.memory[515], 0x00);
    assert_eq!(cpu.memory[511], 0);
    assert_eq!(cpu.memory[516], 0);
}
