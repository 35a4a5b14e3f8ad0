//! Tests of the fetch-decode-execute loop, the halt policies and the
//! timer model.

use chip8::cpu::{HaltReason, StepResult, CPU};

fn fresh() -> (CPU, Vec<u32>, Vec<bool>) {
    (CPU::new(), vec![0u32; 2048], vec![false; 16])
}

fn put_op(cpu: &mut CPU, addr: usize, word: u16) {
    cpu.memory[addr] = (word >> 8) as u8;
    cpu.memory[addr + 1] = (word & 0xFF) as u8;
}

#[test]
fn step_executes_load_imm() {
    let (mut cpu, mut buf, keys) = fresh();
    put_op(&mut cpu, 512, 0x602A);
    let r = cpu.step(&mut buf, &keys);
    assert_eq!(r, StepResult::Continue);
    assert_eq!(cpu.registers[0], 0x2A);
    assert_eq!(cpu.program_counter, 514);
}

#[test]
fn jump_to_self_zeroes_its_own_bytes() {
    let (mut cpu, mut buf, keys) = fresh();
    put_op(&mut cpu, 512, 0x1200);
    let r = cpu.step(&mut buf, &keys);
    assert_eq!(r, StepResult::Continue);
    assert_eq!(cpu.program_counter, 512);
    assert_eq!(cpu.memory[512], 0);
    assert_eq!(cpu.memory[513], 0);
    let r2 = cpu.step(&mut buf, &keys);
    assert_eq!(r2, StepResult::Halted(HaltReason::UnknownOpcode));
    assert_eq!(cpu.program_counter, 512);
}

#[test]
fn jump_elsewhere_keeps_memory() {
    let (mut cpu, mut buf, keys) = fresh();
    put_op(&mut cpu, 512, 0x1300);
    let r = cpu.step(&mut buf, &keys);
    assert_eq!(r, StepResult::Continue);
    assert_eq!(cpu.program_counter, 0x300);
    assert_eq!(cpu.memory[512], 0x13);
    assert_eq!(cpu.memory[513], 0x00);
}

#[test]
fn clear_then_spin_terminates_with_blank_plane() {
    let (mut cpu, mut buf, keys) = fresh();
    for i in 0..2048 {
        buf[i] = u32::MAX;
    }
    let rom = vec![0x00, 0xE0, 0x12, 0x02];
    cpu.load_program(&rom);
    let r1 = cpu.step(&mut buf, &keys);
    assert_eq!(r1, StepResult::Updated);
    assert!(buf.iter().all(|&p| p == 0));
    let r2 = cpu.step(&mut buf, &keys);
    assert_eq!(r2, StepResult::Continue);
    assert_eq!(cpu.program_counter, 514);
    let r3 = cpu.step(&mut buf, &keys);
    assert_eq!(r3, StepResult::Halted(HaltReason::UnknownOpcode));
    assert!(buf.iter().all(|&p| p == 0));
}

#[test]
fn delay_timer_reads_zero_only_after_eighth_step() {
    let mut cpu = CPU::new();
    cpu.delay_register = 1;
    for _ in 0..7 {
        cpu.tick_timers();
        assert_eq!(cpu.delay_register, 1);
    }
    cpu.tick_timers();
    assert_eq!(cpu.delay_register, 0);
}

#[test]
fn sound_timer_decays_at_same_ratio() {
    let mut cpu = CPU::new();
    cpu.sound_register = 2;
    for step in 1..=16 {
        cpu.tick_timers();
        if step < 8 {
            assert_eq!(cpu.sound_register, 2);
        } else if step < 16 {
            assert_eq!(cpu.sound_register, 1);
        } else {
            assert_eq!(cpu.sound_register, 0);
        }
    }
    cpu.tick_timers();
    assert_eq!(cpu.sound_register, 0);
}

#[test]
fn call_and_return_round_trip() {
    let (mut cpu, mut buf, keys) = fresh();
    put_op(&mut cpu, 512, 0x2300);
    put_op(&mut cpu, 0x300, 0x00EE);
    let r1 = cpu.step(&mut buf, &keys);
    assert_eq!(r1, StepResult::Continue);
    assert_eq!(cpu.program_counter, 0x300);
    assert_eq!(cpu.stack_pointer, 1);
    assert_eq!(cpu.stack[0], 514);
    let r2 = cpu.step(&mut buf, &keys);
    assert_eq!(r2, StepResult::Continue);
    assert_eq!(cpu.program_counter, 514);
    assert_eq!(cpu.stack_pointer, 0);
}

#[test]
fn return_with_empty_stack_halts() {
    let (mut cpu, mut buf, keys) = fresh();
    put_op(&mut cpu, 512, 0x00EE);
    let r = cpu.step(&mut buf, &keys);
    assert_eq!(r, StepResult::Halted(HaltReason::StackUnderflow));
    assert_eq!(cpu.program_counter, 512);
    assert_eq!(cpu.stack_pointer, 0);
}

#[test]
fn call_with_full_stack_halts() {
    let (mut cpu, mut buf, keys) = fresh();
    put_op(&mut cpu, 512, 0x2300);
    cpu.stack_pointer = 16;
    let r = cpu.step(&mut buf, &keys);
    assert_eq!(r, StepResult::Halted(HaltReason::StackOverflow));
    assert_eq!(cpu.program_counter, 512);
    assert_eq!(cpu.stack_pointer, 16);
}

#[test]
fn sixteen_nested_calls_fit_and_seventeenth_halts() {
    let (mut cpu, mut buf, keys) = fresh();
    for depth in 0..17 {
        put_op(&mut cpu, 512 + 2 * depth, 0x2000 | (512 + 2 * depth + 2) as u16);
    }
    for depth in 0..16 {
        let r = cpu.step(&mut buf, &keys);
        assert_eq!(r, StepResult::Continue);
        assert_eq!(cpu.stack_pointer, depth + 1);
    }
    let r = cpu.step(&mut buf, &keys);
    assert_eq!(r, StepResult::Halted(HaltReason::StackOverflow));
}

#[test]
fn random_is_masked() {
    let (mut cpu, mut buf, keys) = fresh();
    put_op(&mut cpu, 512, 0xC0F0);
    let r = cpu.step(&mut buf, &keys);
    assert_eq!(r, StepResult::Continue);
    assert_eq!(cpu.registers[0] & 0x0F, 0);
    assert_eq!(cpu.program_counter, 514);
}

#[test]
fn skip_if_key_follows_snapshot() {
    let (mut cpu, mut buf, mut keys) = fresh();
    cpu.registers[0] = 4;
    keys[4] = true;
    put_op(&mut cpu, 512, 0xE09E);
    let r = cpu.step(&mut buf, &keys);
    assert_eq!(r, StepResult::Continue);
    assert_eq!(cpu.program_counter, 516);
}

#[test]
fn skip_if_not_key_follows_snapshot() {
    let (mut cpu, mut buf, keys) = fresh();
    cpu.registers[0] = 4;
    put_op(&mut cpu, 512, 0xE0A1);
    let r = cpu.step(&mut buf, &keys);
    assert_eq!(r, StepResult::Continue);
    assert_eq!(cpu.program_counter, 516);
}

#[test]
fn key_number_above_fifteen_counts_as_not_held() {
    let (mut cpu, mut buf, keys) = fresh();
    cpu.registers[0] = 0x20;
    put_op(&mut cpu, 512, 0xE09E);
    let r = cpu.step(&mut buf, &keys);
    assert_eq!(r, StepResult::Continue);
    assert_eq!(cpu.program_counter, 514);
}

#[test]
fn wait_key_re_dispatches_until_held() {
    let (mut cpu, mut buf, mut keys) = fresh();
    put_op(&mut cpu, 512, 0xF50A);
    let r1 = cpu.step(&mut buf, &keys);
    assert_eq!(r1, StepResult::Continue);
    assert_eq!(cpu.program_counter, 512);
    keys[0xB] = true;
    let r2 = cpu.step(&mut buf, &keys);
    assert_eq!(r2, StepResult::Continue);
    assert_eq!(cpu.registers[5], 0xB);
    assert_eq!(cpu.program_counter, 514);
}

#[test]
fn jump_offset_adds_register_zero() {
    let (mut cpu, mut buf, keys) = fresh();
    cpu.registers[0] = 4;
    put_op(&mut cpu, 512, 0xB300);
    let r = cpu.step(&mut buf, &keys);
    assert_eq!(r, StepResult::Continue);
    assert_eq!(cpu.program_counter, 0x304);
}

#[test]
fn program_counter_wraps_at_end_of_memory() {
    let (mut cpu, mut buf, keys) = fresh();
    cpu.program_counter = 4094;
    put_op(&mut cpu, 4094, 0x6101);
    let r = cpu.step(&mut buf, &keys);
    assert_eq!(r, StepResult::Continue);
    assert_eq!(cpu.registers[1], 1);
    assert_eq!(cpu.program_counter, 0);
}

#[test]
fn fetch_wraps_at_end_of_memory() {
    let (mut cpu, mut buf, keys) = fresh();
    cpu.program_counter = 4095;
    cpu.memory[4095] = 0x6A;
    cpu.memory[0] = 0x42;
    let r = cpu.step(&mut buf, &keys);
    assert_eq!(r, StepResult::Continue);
    assert_eq!(cpu.registers[0xA], 0x42);
    assert_eq!(cpu.program_counter, 1);
}

#[test]
fn load_registers_via_step() {
    let (mut cpu, mut buf, keys) = fresh();
    cpu.i_register = 0x500;
    cpu.memory[0x500] = 1;
    cpu.memory[0x501] = 2;
    cpu.memory[0x502] = 3;
    put_op(&mut cpu, 512, 0xF265);
    let r = cpu.step(&mut buf, &keys);
    assert_eq!(r, StepResult::Continue);
    assert_eq!(cpu.registers[0], 1);
    assert_eq!(cpu.registers[1], 2);
    assert_eq!(cpu.registers[2], 3);
    assert_eq!(cpu.registers[3], 0);
    assert_eq!(cpu.program_counter, 514);
}

#[test]
fn unknown_opcode_halts_and_changes_nothing() {
    let (mut cpu, mut buf, keys) = fresh();
    put_op(&mut cpu, 512, 0x5121);
    let before_regs = cpu.registers.clone();
    let r = cpu.step(&mut buf, &keys);
    assert_eq!(r, StepResult::Halted(HaltReason::UnknownOpcode));
    assert_eq!(cpu.registers, before_regs);
    assert_eq!(cpu.program_counter, 512);
}
