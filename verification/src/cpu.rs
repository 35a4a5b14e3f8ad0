//! The machine state and the fetch-decode-execute engine.
//!
//! `CPU` holds 4096 bytes of memory, sixteen 8-bit registers (register
//! 0xF doubles as the flag register), a 16-bit index register, the two
//! timers with their tick counters, the program counter and a 16-entry
//! call stack.  `step` executes exactly one instruction against a display
//! plane and a snapshot of the sixteen logical keys; `tick_timers` moves
//! the two timers one driver iteration forward at the fixed 8:1
//! instruction-to-tick ratio.
//!
//! Policies for behaviour the instruction set leaves open:
//! - every memory access through the index register or the program
//!   counter wraps modulo 4096, and the program counter wraps modulo
//!   4096 when advanced;
//! - a call when the stack already holds 16 return addresses, or a
//!   return with an empty stack, halts the run with a diagnostic outcome
//!   instead of corrupting state;
//! - a key number above 0xF names no logical key, so `skip-if-key` never
//!   skips on it and `skip-if-not-key` always does.

use vstd::prelude::*;

use vstd::arithmetic::div_mod::{lemma_mod_bound, lemma_mod_self_0, lemma_small_mod};

use crate::arith::{lemma_wrap_offset, lemma_wrap_then_add, lemma_wrap_unique};
use crate::display;
use crate::display::{draw_collision, draw_plane, plane_of};

verus! {

/// Machine state of the interpreter.
pub struct CPU {
    /// 4096 bytes; bytes 0..80 hold the built-in font, programs load at 512.
    pub memory: Vec<u8>,
    /// Sixteen 8-bit registers; register 0xF is the flag register.
    pub registers: Vec<u8>,
    /// 16-bit address register for memory-indirect instructions.
    pub i_register: u16,
    /// Delay timer, decremented toward zero at the tick rate.
    pub delay_register: u8,
    /// Sound timer; a tone should play while it is non-zero.
    pub sound_register: u8,
    /// Steps taken toward the next delay-timer decrement (8 steps = 1 tick).
    pub delay_tick: u8,
    /// Steps taken toward the next sound-timer decrement (8 steps = 1 tick).
    pub sound_tick: u8,
    /// Address of the next instruction; always below 4096.
    pub program_counter: u16,
    /// Number of return addresses currently on the call stack.
    pub stack_pointer: usize,
    /// Sixteen return-address slots; slots below `stack_pointer` are live.
    pub stack: Vec<u16>,
}

/// Why a run stopped.
#[derive(Clone, Copy, PartialEq, Eq, Debug)]
pub enum HaltReason {
    /// The fetched word matches no instruction pattern; the designed
    /// termination signal.
    UnknownOpcode,
    /// A call was executed with 16 return addresses already stacked.
    StackOverflow,
    /// A return was executed with an empty call stack.
    StackUnderflow,
}

/// What one `step` did.
#[derive(Clone, Copy, PartialEq, Eq, Debug)]
pub enum StepResult {
    /// An instruction ran; the display plane is untouched.
    Continue,
    /// An instruction ran and changed the display plane: present it.
    Updated,
    /// The run is over; the machine state is exactly as before the step.
    Halted(HaltReason),
}

// ---------------------------------------------------------------------
// Decoding, in specification terms.
// ---------------------------------------------------------------------

/// The 16-bit instruction word at the program counter: the byte at the
/// program counter is the high byte, its successor (wrapping) the low one.
pub open spec fn spec_word(s: CPU) -> u16 {
    ((s.memory@[s.program_counter as int] as u16) << 8u16) | (s.memory@[(s.program_counter
        + 1) % 4096] as u16)
}

/// Highest nibble of an instruction word.
pub open spec fn op_a(w: u16) -> u16 {
    w >> 12u16
}

/// Second nibble: the register index `x`.
pub open spec fn op_b(w: u16) -> u16 {
    (w >> 8u16) & 0xF
}

/// Third nibble: the register index `y`.
pub open spec fn op_c(w: u16) -> u16 {
    (w >> 4u16) & 0xF
}

/// Lowest nibble.
pub open spec fn op_d(w: u16) -> u16 {
    w & 0xF
}

/// Register index `x` as a sequence index.
pub open spec fn op_x(w: u16) -> int {
    op_b(w) as int
}

/// Register index `y` as a sequence index.
pub open spec fn op_y(w: u16) -> int {
    op_c(w) as int
}

/// The 8-bit immediate `kk`: the low byte.
pub open spec fn op_kk(w: u16) -> u8 {
    (w & 0xFF) as u8
}

/// The 12-bit address `nnn`: the low three nibbles.
pub open spec fn op_nnn(w: u16) -> u16 {
    w & 0xFFF
}

// ---------------------------------------------------------------------
// Arithmetic on register values, in specification terms.
// ---------------------------------------------------------------------

/// 8-bit wrapping addition.
pub open spec fn add_wrap(a: u8, b: u8) -> u8 {
    ((a + b) % 256) as u8
}

/// 8-bit wrapping subtraction.
pub open spec fn sub_wrap(a: u8, b: u8) -> u8 {
    ((a + 256 - b) % 256) as u8
}

/// The program counter `pc` moved `k` bytes forward, wrapping at 4096.
pub open spec fn adv(pc: u16, k: int) -> int {
    (pc + k) % 4096
}

/// Whether the key snapshot holds key number `kv`; numbers above 0xF
/// name no key.
pub open spec fn key_held(keys: Seq<bool>, kv: u8) -> bool {
    kv < 16 && keys[kv as int]
}

/// Index of the lowest held key at or after position `i`, or 16 if none.
pub open spec fn first_key(keys: Seq<bool>, i: int) -> int
    recommends
        0 <= i <= 16,
        keys.len() == 16,
    decreases 16 - i when 0 <= i <= 16
{
    if i >= 16 {
        16
    } else if keys[i] {
        i
    } else {
        first_key(keys, i + 1)
    }
}

/// The sprite of `n` rows that the index register points at: bytes read
/// from memory at the index register onward, wrapping at 4096.
pub open spec fn sprite_seq(s: CPU, n: int) -> Seq<u8> {
    Seq::new(n as nat, |r: int| s.memory@[(s.i_register + r) % 4096])
}

// ---------------------------------------------------------------------
// Frame predicates: which parts of the state an instruction leaves alone.
// The program counter is always stated separately.
// ---------------------------------------------------------------------

/// Everything except the register file (and the program counter) is
/// unchanged.
pub open spec fn same_but_regs(pre: CPU, post: CPU) -> bool {
    &&& post.memory@ == pre.memory@
    &&& post.i_register == pre.i_register
    &&& post.delay_register == pre.delay_register
    &&& post.sound_register == pre.sound_register
    &&& post.delay_tick == pre.delay_tick
    &&& post.sound_tick == pre.sound_tick
    &&& post.stack@ == pre.stack@
    &&& post.stack_pointer == pre.stack_pointer
}

/// Only the program counter may differ.
pub open spec fn same_but_pc(pre: CPU, post: CPU) -> bool {
    &&& same_but_regs(pre, post)
    &&& post.registers@ == pre.registers@
}

/// Everything except memory (and the program counter) is unchanged.
pub open spec fn same_but_mem(pre: CPU, post: CPU) -> bool {
    &&& post.registers@ == pre.registers@
    &&& post.i_register == pre.i_register
    &&& post.delay_register == pre.delay_register
    &&& post.sound_register == pre.sound_register
    &&& post.delay_tick == pre.delay_tick
    &&& post.sound_tick == pre.sound_tick
    &&& post.stack@ == pre.stack@
    &&& post.stack_pointer == pre.stack_pointer
}

/// Everything except the index register (and the program counter) is
/// unchanged.
pub open spec fn same_but_i(pre: CPU, post: CPU) -> bool {
    &&& post.memory@ == pre.memory@
    &&& post.registers@ == pre.registers@
    &&& post.delay_register == pre.delay_register
    &&& post.sound_register == pre.sound_register
    &&& post.delay_tick == pre.delay_tick
    &&& post.sound_tick == pre.sound_tick
    &&& post.stack@ == pre.stack@
    &&& post.stack_pointer == pre.stack_pointer
}

/// Everything except the call stack and its pointer (and the program
/// counter) is unchanged.
pub open spec fn same_but_stack(pre: CPU, post: CPU) -> bool {
    &&& post.memory@ == pre.memory@
    &&& post.registers@ == pre.registers@
    &&& post.i_register == pre.i_register
    &&& post.delay_register == pre.delay_register
    &&& post.sound_register == pre.sound_register
    &&& post.delay_tick == pre.delay_tick
    &&& post.sound_tick == pre.sound_tick
}

/// Everything except the two timers and their tick counters (and the
/// program counter) is unchanged.
pub open spec fn same_but_timers(pre: CPU, post: CPU) -> bool {
    &&& post.memory@ == pre.memory@
    &&& post.registers@ == pre.registers@
    &&& post.i_register == pre.i_register
    &&& post.stack@ == pre.stack@
    &&& post.stack_pointer == pre.stack_pointer
}

/// The whole machine state is unchanged.
pub open spec fn unchanged_cpu(pre: CPU, post: CPU) -> bool {
    &&& same_but_pc(pre, post)
    &&& post.program_counter == pre.program_counter
}

// ---------------------------------------------------------------------
// The built-in font.
// ---------------------------------------------------------------------

/// The 80-byte font table: 16 glyphs of 5 rows each, the 4x5-pixel
/// bitmaps of the hexadecimal digits 0 to F.
pub open spec fn font_seq() -> Seq<u8> {
    seq![
        0xF0u8, 0x90, 0x90, 0x90, 0xF0,
        0x20, 0x60, 0x20, 0x20, 0x70,
        0xF0, 0x10, 0xF0, 0x80, 0xF0,
        0xF0, 0x10, 0xF0, 0x10, 0xF0,
        0x90, 0x90, 0xF0, 0x10, 0x10,
        0xF0, 0x80, 0xF0, 0x10, 0xF0,
        0xF0, 0x80, 0xF0, 0x90, 0xF0,
        0xF0, 0x10, 0x20, 0x40, 0x40,
        0xF0, 0x90, 0xF0, 0x90, 0xF0,
        0xF0, 0x90, 0xF0, 0x10, 0xF0,
        0xF0, 0x90, 0xF0, 0x90, 0x90,
        0xE0, 0x90, 0xE0, 0x90, 0xE0,
        0xF0, 0x80, 0x80, 0x80, 0xF0,
        0xE0, 0x90, 0x90, 0x90, 0xE0,
        0xF0, 0x80, 0xF0, 0x80, 0xF0,
        0xF0, 0x80, 0xF0, 0x80, 0x80,
    ]
}

impl CPU {
    /// Well-formedness: the fixed sizes hold, the program counter and all
    /// live return addresses are valid instruction addresses, and the tick
    /// counters are mid-cycle.
    pub open spec fn wf(self) -> bool {
        &&& self.memory@.len() == 4096
        &&& self.registers@.len() == 16
        &&& self.stack@.len() == 16
        &&& self.program_counter < 4096
        &&& self.stack_pointer <= 16
        &&& forall|i: int| 0 <= i < self.stack_pointer ==> self.stack@[i] < 4096
        &&& self.delay_tick < 8
        &&& self.sound_tick < 8
    }

    /// A fresh machine: memory and registers zeroed, program counter at
    /// 512, empty call stack, timers stopped.
    pub fn new() -> (cpu: CPU)
        ensures
            cpu.wf(),
            cpu.memory@ =~= Seq::new(4096, |i: int| 0u8),
            cpu.registers@ =~= Seq::new(16, |i: int| 0u8),
            cpu.i_register == 0,
            cpu.delay_register == 0,
            cpu.sound_register == 0,
            cpu.delay_tick == 0,
            cpu.sound_tick == 0,
            cpu.program_counter == 512,
            cpu.stack_pointer == 0,
    {
        let mut memory: Vec<u8> = Vec::new();
        let mut i: usize = 0;
        while i < 4096
            invariant
                memory@.len() == i,
                i <= 4096,
                forall|j: int| 0 <= j < i ==> memory@[j] == 0,
            decreases 4096 - i,
        {
            memory.push(0);
            i = i + 1;
        }
        let mut registers: Vec<u8> = Vec::new();
        let mut r: usize = 0;
        while r < 16
            invariant
                registers@.len() == r,
                r <= 16,
                forall|j: int| 0 <= j < r ==> registers@[j] == 0,
            decreases 16 - r,
        {
            registers.push(0);
            r = r + 1;
        }
        let mut stack: Vec<u16> = Vec::new();
        let mut s: usize = 0;
        while s < 16
            invariant
                stack@.len() == s,
                s <= 16,
            decreases 16 - s,
        {
            stack.push(0);
            s = s + 1;
        }
        CPU {
            memory,
            registers,
            i_register: 0,
            delay_register: 0,
            sound_register: 0,
            delay_tick: 0,
            sound_tick: 0,
            program_counter: 512,
            stack_pointer: 0,
            stack,
        }
    }

    /// Write the built-in font into memory bytes 0..80.
    pub fn load_sprites(&mut self)
        requires
            old(self).wf(),
        ensures
            final(self).wf(),
            same_but_mem(*old(self), *final(self)),
            final(self).program_counter == old(self).program_counter,
            forall|j: int| 0 <= j < 80 ==> final(self).memory@[j] == font_seq()[j],
            forall|j: int|
                80 <= j < 4096 ==> final(self).memory@[j] == old(self).memory@[j],
    {
        let font: [u8; 80] = [
            0xF0, 0x90, 0x90, 0x90, 0xF0,
            0x20, 0x60, 0x20, 0x20, 0x70,
            0xF0, 0x10, 0xF0, 0x80, 0xF0,
            0xF0, 0x10, 0xF0, 0x10, 0xF0,
            0x90, 0x90, 0xF0, 0x10, 0x10,
            0xF0, 0x80, 0xF0, 0x10, 0xF0,
            0xF0, 0x80, 0xF0, 0x90, 0xF0,
            0xF0, 0x10, 0x20, 0x40, 0x40,
            0xF0, 0x90, 0xF0, 0x90, 0xF0,
            0xF0, 0x90, 0xF0, 0x10, 0xF0,
            0xF0, 0x90, 0xF0, 0x90, 0x90,
            0xE0, 0x90, 0xE0, 0x90, 0xE0,
            0xF0, 0x80, 0x80, 0x80, 0xF0,
            0xE0, 0x90, 0x90, 0x90, 0xE0,
            0xF0, 0x80, 0xF0, 0x80, 0xF0,
            0xF0, 0x80, 0xF0, 0x80, 0x80,
        ];
        proof {
            assert(font@ =~= font_seq());
        }
        let mut i: usize = 0;
        while i < 80
            invariant
                old(self).wf(),
                self.memory@.len() == 4096,
                i <= 80,
                font@ =~= font_seq(),
                same_but_mem(*old(self), *self),
                self.program_counter == old(self).program_counter,
                forall|j: int| 0 <= j < i ==> self.memory@[j] == font@[j],
                forall|j: int| i <= j < 4096 ==> self.memory@[j] == old(self).memory@[j],
                self.stack@.len() == 16,
                self.registers@.len() == 16,
            decreases 80 - i,
        {
            self.memory.set(i, font[i]);
            i = i + 1;
        }
    }

    /// Place a program image into memory starting at byte 512.
    pub fn load_program(&mut self, program: &Vec<u8>)
        requires
            old(self).wf(),
            program@.len() <= 3584,
        ensures
            final(self).wf(),
            same_but_mem(*old(self), *final(self)),
            final(self).program_counter == old(self).program_counter,
            forall|j: int|
                0 <= j < program@.len() ==> final(self).memory@[512 + j] == program@[j],
            forall|j: int|
                0 <= j < 4096 && !(512 <= j < 512 + program@.len()) ==> final(self).memory@[j]
                    == old(self).memory@[j],
    {
        let mut i: usize = 0;
        while i < program.len()
            invariant
                old(self).wf(),
                self.memory@.len() == 4096,
                program@.len() <= 3584,
                i <= program@.len(),
                same_but_mem(*old(self), *self),
                self.program_counter == old(self).program_counter,
                forall|j: int| 0 <= j < i ==> self.memory@[512 + j] == program@[j],
                forall|j: int|
                    0 <= j < 4096 && !(512 <= j < 512 + i) ==> self.memory@[j] == old(
                        self,
                    ).memory@[j],
                self.stack@.len() == 16,
                self.registers@.len() == 16,
            decreases program@.len() - i,
        {
            let b = program[i];
            self.memory.set(512 + i, b);
            i = i + 1;
        }
    }
}

// ---------------------------------------------------------------------
// Lowest-held-key lookup.
// ---------------------------------------------------------------------

proof fn lemma_first_key_found(keys: Seq<bool>, i: int, k: int)
    requires
        keys.len() == 16,
        0 <= i <= k < 16,
        keys[k],
        forall|j: int| i <= j < k ==> !keys[j],
    ensures
        first_key(keys, i) == k,
    decreases k - i,
{
    if i < k {
        lemma_first_key_found(keys, i + 1, k);
    }
}

proof fn lemma_first_key_none(keys: Seq<bool>, i: int)
    requires
        keys.len() == 16,
        0 <= i <= 16,
        forall|j: int| i <= j < 16 ==> !keys[j],
    ensures
        first_key(keys, i) == 16,
    decreases 16 - i,
{
    if i < 16 {
        lemma_first_key_none(keys, i + 1);
    }
}

/// Relies on rand::random: draws a value of type `T` from the
/// thread-local generator; nothing is promised of which value comes back.
pub assume_specification<T>[ rand::random::<T> ]() -> (r: T)
    where
        rand::distributions::Standard: rand::distributions::Distribution<T>,
;

impl CPU {
    /// `00EE` return: pop the call stack into the program counter.
    pub fn ret(&mut self)
        requires
            old(self).wf(),
            old(self).stack_pointer >= 1,
        ensures
            final(self).wf(),
            same_but_stack(*old(self), *final(self)),
            final(self).stack@ == old(self).stack@,
            final(self).stack_pointer == old(self).stack_pointer - 1,
            final(self).program_counter == old(self).stack@[old(self).stack_pointer - 1],
    {
        self.stack_pointer = self.stack_pointer - 1;
        self.program_counter = self.stack[self.stack_pointer];
    }

    /// `1nnn` jump.  A jump to its own address first zeroes the two bytes
    /// it stands in, so that the next fetch at that address halts the run
    /// instead of spinning forever.
    pub fn jmp(&mut self, nnn: u16)
        requires
            old(self).wf(),
            nnn < 4096,
        ensures
            final(self).wf(),
            same_but_mem(*old(self), *final(self)),
            final(self).program_counter == nnn,
            old(self).program_counter == nnn ==> final(self).memory@ == old(
                self,
            ).memory@.update(nnn as int, 0u8).update((nnn + 1) % 4096, 0u8),
            old(self).program_counter != nnn ==> final(self).memory@ == old(self).memory@,
    {
        if self.program_counter == nnn {
            self.memory.set(nnn as usize, 0);
            self.memory.set(((nnn as usize) + 1) % 4096, 0);
        }
        self.program_counter = nnn;
    }

    /// `2nnn` call: push the address after this instruction, then jump.
    pub fn call(&mut self, nnn: u16)
        requires
            old(self).wf(),
            nnn < 4096,
            old(self).stack_pointer < 16,
        ensures
            final(self).wf(),
            same_but_stack(*old(self), *final(self)),
            final(self).stack@ == old(self).stack@.update(
                old(self).stack_pointer as int,
                (adv(old(self).program_counter, 2)) as u16,
            ),
            final(self).stack_pointer == old(self).stack_pointer + 1,
            final(self).program_counter == nnn,
    {
        let ret_addr: u16 = (self.program_counter + 2) % 4096;
        self.stack.set(self.stack_pointer, ret_addr);
        self.stack_pointer = self.stack_pointer + 1;
        self.program_counter = nnn;
    }

    /// `3xkk` skip the next instruction if register `x` equals `kk`.
    pub fn skip(&mut self, x: usize, kk: u8)
        requires
            old(self).wf(),
            x < 16,
        ensures
            final(self).wf(),
            same_but_pc(*old(self), *final(self)),
            final(self).program_counter == (if old(self).registers@[x as int] == kk {
                adv(old(self).program_counter, 2)
            } else {
                old(self).program_counter as int
            }),
    {
        if self.registers[x] == kk {
            self.program_counter = (self.program_counter + 2) % 4096;
        }
    }

    /// `4xkk` skip the next instruction if register `x` differs from `kk`.
    pub fn skip_if_not(&mut self, x: usize, kk: u8)
        requires
            old(self).wf(),
            x < 16,
        ensures
            final(self).wf(),
            same_but_pc(*old(self), *final(self)),
            final(self).program_counter == (if old(self).registers@[x as int] != kk {
                adv(old(self).program_counter, 2)
            } else {
                old(self).program_counter as int
            }),
    {
        if self.registers[x] != kk {
            self.program_counter = (self.program_counter + 2) % 4096;
        }
    }

    /// `5xy0` skip the next instruction if registers `x` and `y` are equal.
    pub fn skip_r(&mut self, x: usize, y: usize)
        requires
            old(self).wf(),
            x < 16,
            y < 16,
        ensures
            final(self).wf(),
            same_but_pc(*old(self), *final(self)),
            final(self).program_counter == (if old(self).registers@[x as int] == old(
                self,
            ).registers@[y as int] {
                adv(old(self).program_counter, 2)
            } else {
                old(self).program_counter as int
            }),
    {
        if self.registers[x] == self.registers[y] {
            self.program_counter = (self.program_counter + 2) % 4096;
        }
    }

    /// `9xy0` skip the next instruction if registers `x` and `y` differ.
    pub fn skip_r_not(&mut self, x: usize, y: usize)
        requires
            old(self).wf(),
            x < 16,
            y < 16,
        ensures
            final(self).wf(),
            same_but_pc(*old(self), *final(self)),
            final(self).program_counter == (if old(self).registers@[x as int] != old(
                self,
            ).registers@[y as int] {
                adv(old(self).program_counter, 2)
            } else {
                old(self).program_counter as int
            }),
    {
        if self.registers[x] != self.registers[y] {
            self.program_counter = (self.program_counter + 2) % 4096;
        }
    }

    /// `6xkk` load the immediate `kk` into register `x`.
    pub fn set_i(&mut self, x: usize, kk: u8)
        requires
            old(self).wf(),
            x < 16,
        ensures
            final(self).wf(),
            same_but_regs(*old(self), *final(self)),
            final(self).program_counter == old(self).program_counter,
            final(self).registers@ == old(self).registers@.update(x as int, kk),
    {
        self.registers.set(x, kk);
    }

    /// `7xkk` add the immediate `kk` to register `x`, wrapping, flag
    /// untouched.
    pub fn add_i(&mut self, x: usize, kk: u8)
        requires
            old(self).wf(),
            x < 16,
        ensures
            final(self).wf(),
            same_but_regs(*old(self), *final(self)),
            final(self).program_counter == old(self).program_counter,
            final(self).registers@ == old(self).registers@.update(
                x as int,
                add_wrap(old(self).registers@[x as int], kk),
            ),
    {
        let sum: u16 = self.registers[x] as u16 + kk as u16;
        self.registers.set(x, (sum % 256) as u8);
    }

    /// `8xy0` copy register `y` into register `x`; register `y` keeps its
    /// value.
    pub fn store(&mut self, x: usize, y: usize)
        requires
            old(self).wf(),
            x < 16,
            y < 16,
        ensures
            final(self).wf(),
            same_but_regs(*old(self), *final(self)),
            final(self).program_counter == old(self).program_counter,
            final(self).registers@ == old(self).registers@.update(
                x as int,
                old(self).registers@[y as int],
            ),
            final(self).registers@[x as int] == final(self).registers@[y as int],
            x != y ==> final(self).registers@[y as int] == old(self).registers@[y as int],
    {
        let v = self.registers[y];
        self.registers.set(x, v);
    }

    /// `8xy1` bitwise-or register `y` into register `x`.
    pub fn or(&mut self, x: usize, y: usize)
        requires
            old(self).wf(),
            x < 16,
            y < 16,
        ensures
            final(self).wf(),
            same_but_regs(*old(self), *final(self)),
            final(self).program_counter == old(self).program_counter,
            final(self).registers@ == old(self).registers@.update(
                x as int,
                old(self).registers@[x as int] | old(self).registers@[y as int],
            ),
    {
        let v = self.registers[x] | self.registers[y];
        self.registers.set(x, v);
    }

    /// `8xy2` bitwise-and register `y` into register `x`.
    pub fn and(&mut self, x: usize, y: usize)
        requires
            old(self).wf(),
            x < 16,
            y < 16,
        ensures
            final(self).wf(),
            same_but_regs(*old(self), *final(self)),
            final(self).program_counter == old(self).program_counter,
            final(self).registers@ == old(self).registers@.update(
                x as int,
                old(self).registers@[x as int] & old(self).registers@[y as int],
            ),
    {
        let v = self.registers[x] & self.registers[y];
        self.registers.set(x, v);
    }

    /// `8xy3` bitwise-xor register `y` into register `x`.
    pub fn xor(&mut self, x: usize, y: usize)
        requires
            old(self).wf(),
            x < 16,
            y < 16,
        ensures
            final(self).wf(),
            same_but_regs(*old(self), *final(self)),
            final(self).program_counter == old(self).program_counter,
            final(self).registers@ == old(self).registers@.update(
                x as int,
                old(self).registers@[x as int] ^ old(self).registers@[y as int],
            ),
    {
        let v = self.registers[x] ^ self.registers[y];
        self.registers.set(x, v);
    }

    /// `8xy4` add register `y` into register `x` with 8-bit wraparound;
    /// the flag register reports the carry.
    pub fn add(&mut self, x: usize, y: usize)
        requires
            old(self).wf(),
            x < 16,
            y < 16,
        ensures
            final(self).wf(),
            same_but_regs(*old(self), *final(self)),
            final(self).program_counter == old(self).program_counter,
            final(self).registers@ == old(self).registers@.update(
                x as int,
                add_wrap(old(self).registers@[x as int], old(self).registers@[y as int]),
            ).update(
                15,
                if old(self).registers@[x as int] + old(self).registers@[y as int] > 255 {
                    1u8
                } else {
                    0u8
                },
            ),
    {
        let a = self.registers[x];
        let b = self.registers[y];
        let sum: u16 = a as u16 + b as u16;
        self.registers.set(x, (sum % 256) as u8);
        let carry: u8 = if sum > 255 {
            1
        } else {
            0
        };
        self.registers.set(15, carry);
    }

    /// `8xy5` subtract register `y` from register `x`, wrapping; the flag
    /// register is 1 exactly when no borrow occurs (`x > y`), and is
    /// written before the subtraction reads its operands.
    pub fn sub(&mut self, x: usize, y: usize)
        requires
            old(self).wf(),
            x < 16,
            y < 16,
        ensures
            final(self).wf(),
            same_but_regs(*old(self), *final(self)),
            final(self).program_counter == old(self).program_counter,
            ({
                let s1 = old(self).registers@.update(
                    15,
                    if old(self).registers@[x as int] > old(self).registers@[y as int] {
                        1u8
                    } else {
                        0u8
                    },
                );
                final(self).registers@ == s1.update(
                    x as int,
                    sub_wrap(s1[x as int], s1[y as int]),
                )
            }),
    {
        let flag: u8 = if self.registers[x] > self.registers[y] {
            1
        } else {
            0
        };
        self.registers.set(15, flag);
        let a = self.registers[x];
        let b = self.registers[y];
        let v: u16 = (a as u16 + 256 - b as u16) % 256;
        self.registers.set(x, v as u8);
    }

    /// `8xy7` set register `x` to register `y` minus register `x`,
    /// wrapping; the flag register is 1 exactly when no borrow occurs
    /// (`y > x`), and is written before the subtraction reads its
    /// operands.
    pub fn subn(&mut self, x: usize, y: usize)
        requires
            old(self).wf(),
            x < 16,
            y < 16,
        ensures
            final(self).wf(),
            same_but_regs(*old(self), *final(self)),
            final(self).program_counter == old(self).program_counter,
            ({
                let s1 = old(self).registers@.update(
                    15,
                    if old(self).registers@[y as int] > old(self).registers@[x as int] {
                        1u8
                    } else {
                        0u8
                    },
                );
                final(self).registers@ == s1.update(
                    x as int,
                    sub_wrap(s1[y as int], s1[x as int]),
                )
            }),
    {
        let flag: u8 = if self.registers[y] > self.registers[x] {
            1
        } else {
            0
        };
        self.registers.set(15, flag);
        let a = self.registers[x];
        let b = self.registers[y];
        let v: u16 = (b as u16 + 256 - a as u16) % 256;
        self.registers.set(x, v as u8);
    }

    /// `8xy6` shift register `x` right by one; the flag register takes
    /// the bit shifted out, and is written before the shift reads its
    /// operand.
    pub fn shr(&mut self, x: usize)
        requires
            old(self).wf(),
            x < 16,
        ensures
            final(self).wf(),
            same_but_regs(*old(self), *final(self)),
            final(self).program_counter == old(self).program_counter,
            ({
                let s1 = old(self).registers@.update(
                    15,
                    old(self).registers@[x as int] & 1,
                );
                final(self).registers@ == s1.update(x as int, s1[x as int] >> 1u8)
            }),
    {
        let flag: u8 = self.registers[x] & 1;
        self.registers.set(15, flag);
        let v = self.registers[x] >> 1u8;
        self.registers.set(x, v);
    }

    /// `8xyE` shift register `x` left by one; the flag register takes the
    /// bit shifted out, and is written before the shift reads its
    /// operand.
    pub fn shl(&mut self, x: usize)
        requires
            old(self).wf(),
            x < 16,
        ensures
            final(self).wf(),
            same_but_regs(*old(self), *final(self)),
            final(self).program_counter == old(self).program_counter,
            ({
                let s1 = old(self).registers@.update(
                    15,
                    (old(self).registers@[x as int] >> 7u8) & 1,
                );
                final(self).registers@ == s1.update(x as int, s1[x as int] << 1u8)
            }),
    {
        let flag: u8 = (self.registers[x] >> 7u8) & 1;
        self.registers.set(15, flag);
        let v = self.registers[x] << 1u8;
        self.registers.set(x, v);
    }

    /// `Annn` load the address `nnn` into the index register.
    pub fn load_i(&mut self, nnn: u16)
        requires
            old(self).wf(),
            nnn < 4096,
        ensures
            final(self).wf(),
            same_but_i(*old(self), *final(self)),
            final(self).program_counter == old(self).program_counter,
            final(self).i_register == nnn,
    {
        self.i_register = nnn;
    }

    /// `Bnnn` jump to `nnn` plus register 0, wrapping at 4096.
    pub fn jmp_pc(&mut self, nnn: u16)
        requires
            old(self).wf(),
            nnn < 4096,
        ensures
            final(self).wf(),
            same_but_pc(*old(self), *final(self)),
            final(self).program_counter == (nnn + old(self).registers@[0]) % 4096,
    {
        let target: u16 = (nnn + self.registers[0] as u16) % 4096;
        self.program_counter = target;
    }

    /// `Cxkk` load a random byte masked by `kk` into register `x`.
    pub fn rnd(&mut self, x: usize, kk: u8)
        requires
            old(self).wf(),
            x < 16,
        ensures
            final(self).wf(),
            same_but_regs(*old(self), *final(self)),
            final(self).program_counter == old(self).program_counter,
            final(self).registers@ == old(self).registers@.update(
                x as int,
                final(self).registers@[x as int],
            ),
            final(self).registers@[x as int] & kk == final(self).registers@[x as int],
    {
        let rb: u8 = rand::random::<u8>();
        self.registers.set(x, rb & kk);
        proof {
            assert((rb & kk) & kk == rb & kk) by (bit_vector);
        }
    }

    /// `Ex9E` skip the next instruction if the key named by register `x`
    /// is held.
    pub fn skip_if_key(&mut self, x: usize, keys: &Vec<bool>)
        requires
            old(self).wf(),
            x < 16,
            keys@.len() == 16,
        ensures
            final(self).wf(),
            same_but_pc(*old(self), *final(self)),
            final(self).program_counter == (if key_held(
                keys@,
                old(self).registers@[x as int],
            ) {
                adv(old(self).program_counter, 2)
            } else {
                old(self).program_counter as int
            }),
    {
        let kv = self.registers[x] as usize;
        if kv < 16 && keys[kv] {
            self.program_counter = (self.program_counter + 2) % 4096;
        }
    }

    /// `ExA1` skip the next instruction if the key named by register `x`
    /// is not held.
    pub fn skip_if_not_key(&mut self, x: usize, keys: &Vec<bool>)
        requires
            old(self).wf(),
            x < 16,
            keys@.len() == 16,
        ensures
            final(self).wf(),
            same_but_pc(*old(self), *final(self)),
            final(self).program_counter == (if !key_held(
                keys@,
                old(self).registers@[x as int],
            ) {
                adv(old(self).program_counter, 2)
            } else {
                old(self).program_counter as int
            }),
    {
        let kv = self.registers[x] as usize;
        if !(kv < 16 && keys[kv]) {
            self.program_counter = (self.program_counter + 2) % 4096;
        }
    }

    /// `Fx07` read the delay timer into register `x`.
    pub fn load_delay(&mut self, x: usize)
        requires
            old(self).wf(),
            x < 16,
        ensures
            final(self).wf(),
            same_but_regs(*old(self), *final(self)),
            final(self).program_counter == old(self).program_counter,
            final(self).registers@ == old(self).registers@.update(
                x as int,
                old(self).delay_register,
            ),
    {
        let v = self.delay_register;
        self.registers.set(x, v);
    }

    /// `Fx0A` wait for a key: if some key is held, store the lowest held
    /// key's number in register `x` and move past this instruction;
    /// otherwise leave the state alone so the driver re-dispatches the
    /// same instruction on its next iteration.
    pub fn wait_for_key(&mut self, x: usize, keys: &Vec<bool>)
        requires
            old(self).wf(),
            x < 16,
            keys@.len() == 16,
        ensures
            final(self).wf(),
            same_but_regs(*old(self), *final(self)),
            ({
                let k = first_key(keys@, 0);
                if k < 16 {
                    final(self).registers@ == old(self).registers@.update(x as int, k as u8)
                        && final(self).program_counter == adv(old(self).program_counter, 2)
                } else {
                    final(self).registers@ == old(self).registers@
                        && final(self).program_counter == old(self).program_counter
                }
            }),
    {
        let mut k: usize = 0;
        while k < 16
            invariant
                old(self).wf(),
                *self == *old(self),
                x < 16,
                keys@.len() == 16,
                k <= 16,
                forall|j: int| 0 <= j < k ==> !keys@[j],
            decreases 16 - k,
        {
            if keys[k] {
                proof {
                    lemma_first_key_found(keys@, 0, k as int);
                }
                self.registers.set(x, k as u8);
                self.program_counter = (self.program_counter + 2) % 4096;
                return ;
            }
            k = k + 1;
        }
        proof {
            lemma_first_key_none(keys@, 0);
        }
    }

    /// `Fx15` load register `x` into the delay timer.
    pub fn set_delay(&mut self, x: usize)
        requires
            old(self).wf(),
            x < 16,
        ensures
            final(self).wf(),
            same_but_timers(*old(self), *final(self)),
            final(self).program_counter == old(self).program_counter,
            final(self).delay_register == old(self).registers@[x as int],
            final(self).sound_register == old(self).sound_register,
            final(self).delay_tick == old(self).delay_tick,
            final(self).sound_tick == old(self).sound_tick,
    {
        self.delay_register = self.registers[x];
    }

    /// `Fx18` load register `x` into the sound timer.
    pub fn set_sound(&mut self, x: usize)
        requires
            old(self).wf(),
            x < 16,
        ensures
            final(self).wf(),
            same_but_timers(*old(self), *final(self)),
            final(self).program_counter == old(self).program_counter,
            final(self).sound_register == old(self).registers@[x as int],
            final(self).delay_register == old(self).delay_register,
            final(self).delay_tick == old(self).delay_tick,
            final(self).sound_tick == old(self).sound_tick,
    {
        self.sound_register = self.registers[x];
    }

    /// `Fx1E` add register `x` into the index register, wrapping at
    /// 65536.
    pub fn add_to_i(&mut self, x: usize)
        requires
            old(self).wf(),
            x < 16,
        ensures
            final(self).wf(),
            same_but_i(*old(self), *final(self)),
            final(self).program_counter == old(self).program_counter,
            final(self).i_register == (old(self).i_register + old(
                self,
            ).registers@[x as int]) % 65536,
    {
        let s: u32 = self.i_register as u32 + self.registers[x] as u32;
        self.i_register = (s % 65536) as u16;
    }

    /// `Fx29` point the index register at the built-in glyph for the
    /// digit in register `x` (5 bytes per glyph).
    pub fn set_i_to_sprite(&mut self, x: usize)
        requires
            old(self).wf(),
            x < 16,
        ensures
            final(self).wf(),
            same_but_i(*old(self), *final(self)),
            final(self).program_counter == old(self).program_counter,
            final(self).i_register == old(self).registers@[x as int] * 5,
    {
        self.i_register = self.registers[x] as u16 * 5;
    }

    /// `Fx33` store the decimal digits of register `x`: hundreds, tens,
    /// units at the index register and the two bytes after it, wrapping
    /// at 4096.
    pub fn store_bcd(&mut self, x: usize)
        requires
            old(self).wf(),
            x < 16,
        ensures
            final(self).wf(),
            same_but_mem(*old(self), *final(self)),
            final(self).program_counter == old(self).program_counter,
            ({
                let v = old(self).registers@[x as int];
                let i = old(self).i_register as int;
                final(self).memory@ == old(self).memory@.update(i % 4096, v / 100).update(
                    (i + 1) % 4096,
                    (v / 10) % 10,
                ).update((i + 2) % 4096, v % 10)
            }),
    {
        let v = self.registers[x];
        let base = self.i_register as usize;
        self.memory.set(base % 4096, v / 100);
        self.memory.set((base + 1) % 4096, (v / 10) % 10);
        self.memory.set((base + 2) % 4096, v % 10);
    }

    /// `Fx55` store registers 0 through `x` into memory at the index
    /// register onward, wrapping at 4096.
    pub fn reg_to_mem(&mut self, x: usize)
        requires
            old(self).wf(),
            x < 16,
        ensures
            final(self).wf(),
            same_but_mem(*old(self), *final(self)),
            final(self).program_counter == old(self).program_counter,
            forall|j: int|
                0 <= j < 4096 ==> final(self).memory@[j] == ({
                    let d = (j - old(self).i_register) % 4096;
                    if d <= x {
                        old(self).registers@[d]
                    } else {
                        old(self).memory@[j]
                    }
                }),
    {
        let base = self.i_register as usize;
        let mut r: usize = 0;
        while r <= x
            invariant
                old(self).wf(),
                x < 16,
                r <= x + 1,
                base == old(self).i_register,
                self.memory@.len() == 4096,
                same_but_mem(*old(self), *self),
                self.program_counter == old(self).program_counter,
                self.registers@.len() == 16,
                self.stack@.len() == 16,
                forall|j: int|
                    0 <= j < 4096 ==> self.memory@[j] == ({
                        let d = (j - old(self).i_register) % 4096;
                        if d < r {
                            old(self).registers@[d]
                        } else {
                            old(self).memory@[j]
                        }
                    }),
            decreases x + 1 - r,
        {
            let t = (base + r) % 4096;
            let v = self.registers[r];
            self.memory.set(t, v);
            proof {
                lemma_wrap_offset(base as int, r as int, 4096);
                assert forall|j: int| 0 <= j < 4096 implies self.memory@[j] == ({
                    let d = (j - old(self).i_register) % 4096;
                    if d < r + 1 {
                        old(self).registers@[d]
                    } else {
                        old(self).memory@[j]
                    }
                }) by {
                    lemma_wrap_unique(base as int, r as int, j, 4096);
                }
            }
            r = r + 1;
        }
    }

    /// `Fx65` load registers 0 through `x` from memory at the index
    /// register onward, wrapping at 4096.
    pub fn mem_to_reg(&mut self, x: usize)
        requires
            old(self).wf(),
            x < 16,
        ensures
            final(self).wf(),
            same_but_regs(*old(self), *final(self)),
            final(self).program_counter == old(self).program_counter,
            forall|t: int|
                0 <= t < 16 ==> final(self).registers@[t] == (if t <= x {
                    old(self).memory@[(old(self).i_register + t) % 4096]
                } else {
                    old(self).registers@[t]
                }),
    {
        let base = self.i_register as usize;
        let mut r: usize = 0;
        while r <= x
            invariant
                old(self).wf(),
                x < 16,
                r <= x + 1,
                base == old(self).i_register,
                self.registers@.len() == 16,
                same_but_regs(*old(self), *self),
                self.program_counter == old(self).program_counter,
                self.memory@.len() == 4096,
                self.stack@.len() == 16,
                forall|t: int|
                    0 <= t < 16 ==> self.registers@[t] == (if t < r {
                        old(self).memory@[(old(self).i_register + t) % 4096]
                    } else {
                        old(self).registers@[t]
                    }),
            decreases x + 1 - r,
        {
            let v = self.memory[(base + r) % 4096];
            self.registers.set(r, v);
            r = r + 1;
        }
    }

    /// `Dxyn` draw: XOR-blit the `n`-row sprite at the index register
    /// onto the plane at the coordinates held in registers `x` and `y`;
    /// the flag register reports whether any pixel went from on to off.
    pub fn draw(&mut self, x: usize, y: usize, n: usize, buffer: &mut Vec<u32>)
        requires
            old(self).wf(),
            x < 16,
            y < 16,
            n <= 15,
            old(buffer)@.len() == 2048,
        ensures
            final(self).wf(),
            same_but_regs(*old(self), *final(self)),
            final(self).program_counter == old(self).program_counter,
            final(buffer)@.len() == 2048,
            plane_of(final(buffer)@) == draw_plane(
                plane_of(old(buffer)@),
                sprite_seq(*old(self), n as int),
                old(self).registers@[x as int] as int,
                old(self).registers@[y as int] as int,
            ),
            final(self).registers@ == old(self).registers@.update(
                15,
                (if draw_collision(
                    plane_of(old(buffer)@),
                    sprite_seq(*old(self), n as int),
                    old(self).registers@[x as int] as int,
                    old(self).registers@[y as int] as int,
                ) {
                    1u8
                } else {
                    0u8
                }),
            ),
    {
        let ox = self.registers[x];
        let oy = self.registers[y];
        let base = self.i_register as usize;
        let mut sprite: Vec<u8> = Vec::new();
        let mut r: usize = 0;
        while r < n
            invariant
                old(self).wf(),
                *self == *old(self),
                base == old(self).i_register as usize,
                n <= 15,
                r <= n,
                sprite@.len() == r,
                forall|j: int|
                    0 <= j < r ==> sprite@[j] == old(self).memory@[(old(self).i_register
                        + j) % 4096],
            decreases n - r,
        {
            let v = self.memory[(base + r) % 4096];
            sprite.push(v);
            r = r + 1;
        }
        proof {
            assert(sprite@ =~= sprite_seq(*old(self), n as int));
        }
        let coll = display::blit_sprite(buffer, &sprite, ox, oy);
        let flag: u8 = if coll {
            1
        } else {
            0
        };
        self.registers.set(15, flag);
    }

    /// Move the program counter past the instruction just executed,
    /// wrapping at 4096.
    fn advance_pc(&mut self)
        requires
            old(self).wf(),
        ensures
            final(self).wf(),
            same_but_pc(*old(self), *final(self)),
            final(self).program_counter == adv(old(self).program_counter, 2),
    {
        self.program_counter = (self.program_counter + 2) % 4096;
    }

    /// One driver iteration's worth of timer movement: each timer that is
    /// non-zero counts a step, and on the 8th step since its last
    /// decrement it goes down by one (the 8:1 instruction-to-tick ratio).
    pub fn tick_timers(&mut self)
        requires
            old(self).wf(),
        ensures
            final(self).wf(),
            same_but_timers(*old(self), *final(self)),
            final(self).program_counter == old(self).program_counter,
            final(self).delay_register == tick_reg(
                old(self).delay_register,
                old(self).delay_tick,
            ),
            final(self).delay_tick == tick_cnt(old(self).delay_register, old(self).delay_tick),
            final(self).sound_register == tick_reg(
                old(self).sound_register,
                old(self).sound_tick,
            ),
            final(self).sound_tick == tick_cnt(old(self).sound_register, old(self).sound_tick),
    {
        if self.delay_register > 0 {
            if self.delay_tick == 7 {
                self.delay_register = self.delay_register - 1;
                self.delay_tick = 0;
            } else {
                self.delay_tick = self.delay_tick + 1;
            }
        }
        if self.sound_register > 0 {
            if self.sound_tick == 7 {
                self.sound_register = self.sound_register - 1;
                self.sound_tick = 0;
            } else {
                self.sound_tick = self.sound_tick + 1;
            }
        }
    }
}

// ---------------------------------------------------------------------
// The timer model.
// ---------------------------------------------------------------------

/// A timer's value after one driver step with step counter `t`.
pub open spec fn tick_reg(v: u8, t: u8) -> u8
    recommends
        t < 8,
{
    if v > 0 && t == 7 {
        (v - 1) as u8
    } else {
        v
    }
}

/// A timer's step counter after one driver step.
pub open spec fn tick_cnt(v: u8, t: u8) -> u8
    recommends
        t < 8,
{
    if v > 0 {
        if t == 7 {
            0u8
        } else {
            (t + 1) as u8
        }
    } else {
        t
    }
}

/// A timer and its step counter after `k` driver steps.
pub open spec fn ticked(v: u8, t: u8, k: nat) -> (u8, u8)
    decreases k,
{
    if k == 0 {
        (v, t)
    } else {
        let p = ticked(v, t, (k - 1) as nat);
        (tick_reg(p.0, p.1), tick_cnt(p.0, p.1))
    }
}

proof fn lemma_timer_holds(k: nat)
    requires
        k < 8,
    ensures
        ticked(1, 0, k) == (1u8, k as u8),
    decreases k,
{
    if k > 0 {
        lemma_timer_holds((k - 1) as nat);
    }
}

/// Timer decay at the fixed 8:1 ratio: a timer set to 1 with a fresh step
/// counter still reads 1 after fewer than 8 driver steps, and reads 0
/// after the 8th.
pub proof fn lemma_timer_decay(k: nat)
    ensures
        k < 8 ==> ticked(1, 0, k).0 == 1,
        ticked(1, 0, 8).0 == 0,
{
    if k < 8 {
        lemma_timer_holds(k);
    }
    lemma_timer_holds(7);
    assert(ticked(1, 0, 8) == (tick_reg(1, 7), tick_cnt(1, 7)));
}

// ---------------------------------------------------------------------
// One step of the engine, in specification terms.
// ---------------------------------------------------------------------

/// What executing one instruction does: relates the machine state, the
/// display buffer and the step's result before (`pre`, `pb`) and after
/// (`post`, `qb`) the step, given the key snapshot `keys`.  The case
/// analysis follows the opcode table; any word that matches no pattern
/// leaves everything unchanged and halts the run.
pub open spec fn step_post(
    pre: CPU,
    post: CPU,
    pb: Seq<u32>,
    qb: Seq<u32>,
    keys: Seq<bool>,
    r: StepResult,
) -> bool
    recommends
        pre.wf(),
        pb.len() == 2048,
        keys.len() == 16,
{
    let w = spec_word(pre);
    let a = op_a(w);
    let b = op_b(w);
    let c = op_c(w);
    let d = op_d(w);
    let x = op_x(w);
    let y = op_y(w);
    let kk = op_kk(w);
    let nnn = op_nnn(w);
    if a == 0 && b == 0 && c == 0xE && d == 0 {
        // clear
        &&& same_but_pc(pre, post)
        &&& post.program_counter == adv(pre.program_counter, 2)
        &&& qb.len() == 2048
        &&& (forall|i: int| 0 <= i < 2048 ==> qb[i] == 0)
        &&& r == StepResult::Updated
    } else if a == 0 && b == 0 && c == 0xE && d == 0xE {
        // return
        if pre.stack_pointer == 0 {
            &&& unchanged_cpu(pre, post)
            &&& qb == pb
            &&& r == StepResult::Halted(HaltReason::StackUnderflow)
        } else {
            &&& same_but_stack(pre, post)
            &&& post.stack@ == pre.stack@
            &&& post.stack_pointer == pre.stack_pointer - 1
            &&& post.program_counter == pre.stack@[pre.stack_pointer - 1]
            &&& qb == pb
            &&& r == StepResult::Continue
        }
    } else if a == 1 {
        // jump, with the self-jump rewrite
        &&& same_but_mem(pre, post)
        &&& post.program_counter == nnn
        &&& (pre.program_counter == nnn ==> post.memory@ == pre.memory@.update(
            nnn as int,
            0u8,
        ).update((nnn + 1) % 4096, 0u8))
        &&& (pre.program_counter != nnn ==> post.memory@ == pre.memory@)
        &&& qb == pb
        &&& r == StepResult::Continue
    } else if a == 2 {
        // call
        if pre.stack_pointer == 16 {
            &&& unchanged_cpu(pre, post)
            &&& qb == pb
            &&& r == StepResult::Halted(HaltReason::StackOverflow)
        } else {
            &&& same_but_stack(pre, post)
            &&& post.stack@ == pre.stack@.update(
                pre.stack_pointer as int,
                (adv(pre.program_counter, 2)) as u16,
            )
            &&& post.stack_pointer == pre.stack_pointer + 1
            &&& post.program_counter == nnn
            &&& qb == pb
            &&& r == StepResult::Continue
        }
    } else if a == 3 {
        // skip-eq-imm
        &&& same_but_pc(pre, post)
        &&& post.program_counter == (if pre.registers@[x] == kk {
            adv(pre.program_counter, 4)
        } else {
            adv(pre.program_counter, 2)
        })
        &&& qb == pb
        &&& r == StepResult::Continue
    } else if a == 4 {
        // skip-ne-imm
        &&& same_but_pc(pre, post)
        &&& post.program_counter == (if pre.registers@[x] != kk {
            adv(pre.program_counter, 4)
        } else {
            adv(pre.program_counter, 2)
        })
        &&& qb == pb
        &&& r == StepResult::Continue
    } else if a == 5 && d == 0 {
        // skip-eq-reg
        &&& same_but_pc(pre, post)
        &&& post.program_counter == (if pre.registers@[x] == pre.registers@[y] {
            adv(pre.program_counter, 4)
        } else {
            adv(pre.program_counter, 2)
        })
        &&& qb == pb
        &&& r == StepResult::Continue
    } else if a == 6 {
        // load-imm
        &&& same_but_regs(pre, post)
        &&& post.registers@ == pre.registers@.update(x, kk)
        &&& post.program_counter == adv(pre.program_counter, 2)
        &&& qb == pb
        &&& r == StepResult::Continue
    } else if a == 7 {
        // add-imm, wrapping, flag untouched
        &&& same_but_regs(pre, post)
        &&& post.registers@ == pre.registers@.update(x, add_wrap(pre.registers@[x], kk))
        &&& post.program_counter == adv(pre.program_counter, 2)
        &&& qb == pb
        &&& r == StepResult::Continue
    } else if a == 8 && d == 0 {
        // copy
        &&& same_but_regs(pre, post)
        &&& post.registers@ == pre.registers@.update(x, pre.registers@[y])
        &&& post.program_counter == adv(pre.program_counter, 2)
        &&& qb == pb
        &&& r == StepResult::Continue
    } else if a == 8 && d == 1 {
        // or
        &&& same_but_regs(pre, post)
        &&& post.registers@ == pre.registers@.update(
            x,
            pre.registers@[x] | pre.registers@[y],
        )
        &&& post.program_counter == adv(pre.program_counter, 2)
        &&& qb == pb
        &&& r == StepResult::Continue
    } else if a == 8 && d == 2 {
        // and
        &&& same_but_regs(pre, post)
        &&& post.registers@ == pre.registers@.update(
            x,
            pre.registers@[x] & pre.registers@[y],
        )
        &&& post.program_counter == adv(pre.program_counter, 2)
        &&& qb == pb
        &&& r == StepResult::Continue
    } else if a == 8 && d == 3 {
        // xor
        &&& same_but_regs(pre, post)
        &&& post.registers@ == pre.registers@.update(
            x,
            pre.registers@[x] ^ pre.registers@[y],
        )
        &&& post.program_counter == adv(pre.program_counter, 2)
        &&& qb == pb
        &&& r == StepResult::Continue
    } else if a == 8 && d == 4 {
        // add with carry flag
        &&& same_but_regs(pre, post)
        &&& post.registers@ == pre.registers@.update(
            x,
            add_wrap(pre.registers@[x], pre.registers@[y]),
        ).update(
            15,
            if pre.registers@[x] + pre.registers@[y] > 255 {
                1u8
            } else {
                0u8
            },
        )
        &&& post.program_counter == adv(pre.program_counter, 2)
        &&& qb == pb
        &&& r == StepResult::Continue
    } else if a == 8 && d == 5 {
        // sub with no-borrow flag, flag written first
        &&& same_but_regs(pre, post)
        &&& ({
            let s1 = pre.registers@.update(
                15,
                if pre.registers@[x] > pre.registers@[y] {
                    1u8
                } else {
                    0u8
                },
            );
            post.registers@ == s1.update(x, sub_wrap(s1[x], s1[y]))
        })
        &&& post.program_counter == adv(pre.program_counter, 2)
        &&& qb == pb
        &&& r == StepResult::Continue
    } else if a == 8 && d == 6 {
        // shift-right, flag takes the old low bit
        &&& same_but_regs(pre, post)
        &&& ({
            let s1 = pre.registers@.update(15, pre.registers@[x] & 1);
            post.registers@ == s1.update(x, s1[x] >> 1u8)
        })
        &&& post.program_counter == adv(pre.program_counter, 2)
        &&& qb == pb
        &&& r == StepResult::Continue
    } else if a == 8 && d == 7 {
        // subn with no-borrow flag, flag written first
        &&& same_but_regs(pre, post)
        &&& ({
            let s1 = pre.registers@.update(
                15,
                if pre.registers@[y] > pre.registers@[x] {
                    1u8
                } else {
                    0u8
                },
            );
            post.registers@ == s1.update(x, sub_wrap(s1[y], s1[x]))
        })
        &&& post.program_counter == adv(pre.program_counter, 2)
        &&& qb == pb
        &&& r == StepResult::Continue
    } else if a == 8 && d == 0xE {
        // shift-left, flag takes the old high bit
        &&& same_but_regs(pre, post)
        &&& ({
            let s1 = pre.registers@.update(15, (pre.registers@[x] >> 7u8) & 1);
            post.registers@ == s1.update(x, s1[x] << 1u8)
        })
        &&& post.program_counter == adv(pre.program_counter, 2)
        &&& qb == pb
        &&& r == StepResult::Continue
    } else if a == 9 && d == 0 {
        // skip-ne-reg
        &&& same_but_pc(pre, post)
        &&& post.program_counter == (if pre.registers@[x] != pre.registers@[y] {
            adv(pre.program_counter, 4)
        } else {
            adv(pre.program_counter, 2)
        })
        &&& qb == pb
        &&& r == StepResult::Continue
    } else if a == 0xA {
        // load-index
        &&& same_but_i(pre, post)
        &&& post.i_register == nnn
        &&& post.program_counter == adv(pre.program_counter, 2)
        &&& qb == pb
        &&& r == StepResult::Continue
    } else if a == 0xB {
        // jump-offset
        &&& same_but_pc(pre, post)
        &&& post.program_counter == (nnn + pre.registers@[0]) % 4096
        &&& qb == pb
        &&& r == StepResult::Continue
    } else if a == 0xC {
        // random masked by kk: some byte was drawn, masked and stored
        &&& same_but_regs(pre, post)
        &&& post.registers@ == pre.registers@.update(x, post.registers@[x])
        &&& post.registers@[x] & kk == post.registers@[x]
        &&& post.program_counter == adv(pre.program_counter, 2)
        &&& qb == pb
        &&& r == StepResult::Continue
    } else if a == 0xD {
        // draw
        &&& same_but_regs(pre, post)
        &&& qb.len() == 2048
        &&& plane_of(qb) == draw_plane(
            plane_of(pb),
            sprite_seq(pre, d as int),
            pre.registers@[x] as int,
            pre.registers@[y] as int,
        )
        &&& post.registers@ == pre.registers@.update(
            15,
            (if draw_collision(
                plane_of(pb),
                sprite_seq(pre, d as int),
                pre.registers@[x] as int,
                pre.registers@[y] as int,
            ) {
                1u8
            } else {
                0u8
            }),
        )
        &&& post.program_counter == adv(pre.program_counter, 2)
        &&& r == StepResult::Updated
    } else if a == 0xE && c == 9 && d == 0xE {
        // skip-if-key
        &&& same_but_pc(pre, post)
        &&& post.program_counter == (if key_held(keys, pre.registers@[x]) {
            adv(pre.program_counter, 4)
        } else {
            adv(pre.program_counter, 2)
        })
        &&& qb == pb
        &&& r == StepResult::Continue
    } else if a == 0xE && c == 0xA && d == 1 {
        // skip-if-not-key
        &&& same_but_pc(pre, post)
        &&& post.program_counter == (if !key_held(keys, pre.registers@[x]) {
            adv(pre.program_counter, 4)
        } else {
            adv(pre.program_counter, 2)
        })
        &&& qb == pb
        &&& r == StepResult::Continue
    } else if a == 0xF && c == 0 && d == 7 {
        // read-delay
        &&& same_but_regs(pre, post)
        &&& post.registers@ == pre.registers@.update(x, pre.delay_register)
        &&& post.program_counter == adv(pre.program_counter, 2)
        &&& qb == pb
        &&& r == StepResult::Continue
    } else if a == 0xF && c == 0 && d == 0xA {
        // wait-key: advance only once some key is held, storing the
        // lowest held key's number
        &&& same_but_regs(pre, post)
        &&& ({
            let k = first_key(keys, 0);
            if k < 16 {
                post.registers@ == pre.registers@.update(x, k as u8)
                    && post.program_counter == adv(pre.program_counter, 2)
            } else {
                post.registers@ == pre.registers@ && post.program_counter
                    == pre.program_counter
            }
        })
        &&& qb == pb
        &&& r == StepResult::Continue
    } else if a == 0xF && c == 1 && d == 5 {
        // write-delay
        &&& same_but_timers(pre, post)
        &&& post.delay_register == pre.registers@[x]
        &&& post.sound_register == pre.sound_register
        &&& post.delay_tick == pre.delay_tick
        &&& post.sound_tick == pre.sound_tick
        &&& post.program_counter == adv(pre.program_counter, 2)
        &&& qb == pb
        &&& r == StepResult::Continue
    } else if a == 0xF && c == 1 && d == 8 {
        // write-sound
        &&& same_but_timers(pre, post)
        &&& post.sound_register == pre.registers@[x]
        &&& post.delay_register == pre.delay_register
        &&& post.delay_tick == pre.delay_tick
        &&& post.sound_tick == pre.sound_tick
        &&& post.program_counter == adv(pre.program_counter, 2)
        &&& qb == pb
        &&& r == StepResult::Continue
    } else if a == 0xF && c == 1 && d == 0xE {
        // add-to-index, wrapping at 65536
        &&& same_but_i(pre, post)
        &&& post.i_register == (pre.i_register + pre.registers@[x]) % 65536
        &&& post.program_counter == adv(pre.program_counter, 2)
        &&& qb == pb
        &&& r == StepResult::Continue
    } else if a == 0xF && c == 2 && d == 9 {
        // sprite-address: 5 bytes per built-in glyph
        &&& same_but_i(pre, post)
        &&& post.i_register == pre.registers@[x] * 5
        &&& post.program_counter == adv(pre.program_counter, 2)
        &&& qb == pb
        &&& r == StepResult::Continue
    } else if a == 0xF && c == 3 && d == 3 {
        // store-bcd
        &&& same_but_mem(pre, post)
        &&& ({
            let v = pre.registers@[x];
            let i = pre.i_register as int;
            post.memory@ == pre.memory@.update(i % 4096, v / 100).update(
                (i + 1) % 4096,
                (v / 10) % 10,
            ).update((i + 2) % 4096, v % 10)
        })
        &&& post.program_counter == adv(pre.program_counter, 2)
        &&& qb == pb
        &&& r == StepResult::Continue
    } else if a == 0xF && c == 5 && d == 5 {
        // store-registers
        &&& same_but_mem(pre, post)
        &&& (forall|j: int|
            0 <= j < 4096 ==> post.memory@[j] == ({
                let dd = (j - pre.i_register) % 4096;
                if dd <= x {
                    pre.registers@[dd]
                } else {
                    pre.memory@[j]
                }
            }))
        &&& post.program_counter == adv(pre.program_counter, 2)
        &&& qb == pb
        &&& r == StepResult::Continue
    } else if a == 0xF && c == 6 && d == 5 {
        // load-registers
        &&& same_but_regs(pre, post)
        &&& (forall|t: int|
            0 <= t < 16 ==> post.registers@[t] == (if t <= x {
                pre.memory@[(pre.i_register + t) % 4096]
            } else {
                pre.registers@[t]
            }))
        &&& post.program_counter == adv(pre.program_counter, 2)
        &&& qb == pb
        &&& r == StepResult::Continue
    } else {
        // no pattern: the designed termination signal
        &&& unchanged_cpu(pre, post)
        &&& qb == pb
        &&& r == StepResult::Halted(HaltReason::UnknownOpcode)
    }
}

impl CPU {
    /// Execute exactly one instruction: fetch the word at the program
    /// counter, decode it, apply its effects to the machine state and the
    /// display plane, and advance the program counter unless the
    /// instruction set it itself.  `step_post` pins down the entire
    /// transition.
    pub fn step(&mut self, buffer: &mut Vec<u32>, keys: &Vec<bool>) -> (r: StepResult)
        requires
            old(self).wf(),
            old(buffer)@.len() == 2048,
            keys@.len() == 16,
        ensures
            final(self).wf(),
            final(buffer)@.len() == 2048,
            step_post(*old(self), *final(self), old(buffer)@, final(buffer)@, keys@, r),
    {
        let pc = self.program_counter as usize;
        let hi = self.memory[pc];
        let lo = self.memory[(pc + 1) % 4096];
        let w: u16 = ((hi as u16) << 8u16) | (lo as u16);
        proof {
            assert(w == spec_word(*old(self)));
            assert((w >> 12u16) < 16 && ((w >> 8u16) & 0xF) < 16 && ((w >> 4u16) & 0xF) < 16
                && (w & 0xF) < 16 && (w & 0xFF) < 256 && (w & 0xFFF) < 4096) by (bit_vector);
        }
        let a: u16 = w >> 12u16;
        let b: u16 = (w >> 8u16) & 0xF;
        let c: u16 = (w >> 4u16) & 0xF;
        let d: u16 = w & 0xF;
        let x = b as usize;
        let y = c as usize;
        let kk: u8 = (w & 0xFF) as u8;
        let nnn: u16 = w & 0xFFF;
        match (a, b, c, d) {
            (0x0, 0x0, 0xE, 0x0) => {
                display::clear_plane(buffer);
                self.advance_pc();
                return StepResult::Updated;
            },
            (0x0, 0x0, 0xE, 0xE) => {
                if self.stack_pointer == 0 {
                    return StepResult::Halted(HaltReason::StackUnderflow);
                } else {
                    self.ret();
                    return StepResult::Continue;
                }
            },
            (0x1, _, _, _) => {
                self.jmp(nnn);
                return StepResult::Continue;
            },
            (0x2, _, _, _) => {
                if self.stack_pointer == 16 {
                    return StepResult::Halted(HaltReason::StackOverflow);
                } else {
                    self.call(nnn);
                    return StepResult::Continue;
                }
            },
            (0x3, _, _, _) => {
                self.skip(x, kk);
                self.advance_pc();
                proof {
                    lemma_wrap_then_add(old(self).program_counter + 2, 2, 4096);
                }
                return StepResult::Continue;
            },
            (0x4, _, _, _) => {
                self.skip_if_not(x, kk);
                self.advance_pc();
                proof {
                    lemma_wrap_then_add(old(self).program_counter + 2, 2, 4096);
                }
                return StepResult::Continue;
            },
            (0x5, _, _, 0x0) => {
                self.skip_r(x, y);
                self.advance_pc();
                proof {
                    lemma_wrap_then_add(old(self).program_counter + 2, 2, 4096);
                }
                return StepResult::Continue;
            },
            (0x6, _, _, _) => {
                self.set_i(x, kk);
                self.advance_pc();
                return StepResult::Continue;
            },
            (0x7, _, _, _) => {
                self.add_i(x, kk);
                self.advance_pc();
                return StepResult::Continue;
            },
            (0x8, _, _, 0x0) => {
                self.store(x, y);
                self.advance_pc();
                return StepResult::Continue;
            },
            (0x8, _, _, 0x1) => {
                self.or(x, y);
                self.advance_pc();
                return StepResult::Continue;
            },
            (0x8, _, _, 0x2) => {
                self.and(x, y);
                self.advance_pc();
                return StepResult::Continue;
            },
            (0x8, _, _, 0x3) => {
                self.xor(x, y);
                self.advance_pc();
                return StepResult::Continue;
            },
            (0x8, _, _, 0x4) => {
                self.add(x, y);
                self.advance_pc();
                return StepResult::Continue;
            },
            (0x8, _, _, 0x5) => {
                self.sub(x, y);
                self.advance_pc();
                return StepResult::Continue;
            },
            (0x8, _, _, 0x6) => {
                self.shr(x);
                self.advance_pc();
                return StepResult::Continue;
            },
            (0x8, _, _, 0x7) => {
                self.subn(x, y);
                self.advance_pc();
                return StepResult::Continue;
            },
            (0x8, _, _, 0xE) => {
                self.shl(x);
                self.advance_pc();
                return StepResult::Continue;
            },
            (0x9, _, _, 0x0) => {
                self.skip_r_not(x, y);
                self.advance_pc();
                proof {
                    lemma_wrap_then_add(old(self).program_counter + 2, 2, 4096);
                }
                return StepResult::Continue;
            },
            (0xA, _, _, _) => {
                self.load_i(nnn);
                self.advance_pc();
                return StepResult::Continue;
            },
            (0xB, _, _, _) => {
                self.jmp_pc(nnn);
                return StepResult::Continue;
            },
            (0xC, _, _, _) => {
                self.rnd(x, kk);
                self.advance_pc();
                return StepResult::Continue;
            },
            (0xD, _, _, _) => {
                let n = d as usize;
                self.draw(x, y, n, buffer);
                self.advance_pc();
                return StepResult::Updated;
            },
            (0xE, _, 0x9, 0xE) => {
                self.skip_if_key(x, keys);
                self.advance_pc();
                proof {
                    lemma_wrap_then_add(old(self).program_counter + 2, 2, 4096);
                }
                return StepResult::Continue;
            },
            (0xE, _, 0xA, 0x1) => {
                self.skip_if_not_key(x, keys);
                self.advance_pc();
                proof {
                    lemma_wrap_then_add(old(self).program_counter + 2, 2, 4096);
                }
                return StepResult::Continue;
            },
            (0xF, _, 0x0, 0x7) => {
                self.load_delay(x);
                self.advance_pc();
                return StepResult::Continue;
            },
            (0xF, _, 0x0, 0xA) => {
                self.wait_for_key(x, keys);
                return StepResult::Continue;
            },
            (0xF, _, 0x1, 0x5) => {
                self.set_delay(x);
                self.advance_pc();
                return StepResult::Continue;
            },
            (0xF, _, 0x1, 0x8) => {
                self.set_sound(x);
                self.advance_pc();
                return StepResult::Continue;
            },
            (0xF, _, 0x1, 0xE) => {
                self.add_to_i(x);
                self.advance_pc();
                return StepResult::Continue;
            },
            (0xF, _, 0x2, 0x9) => {
                self.set_i_to_sprite(x);
                self.advance_pc();
                return StepResult::Continue;
            },
            (0xF, _, 0x3, 0x3) => {
                self.store_bcd(x);
                self.advance_pc();
                return StepResult::Continue;
            },
            (0xF, _, 0x5, 0x5) => {
                self.reg_to_mem(x);
                self.advance_pc();
                return StepResult::Continue;
            },
            (0xF, _, 0x6, 0x5) => {
                self.mem_to_reg(x);
                self.advance_pc();
                return StepResult::Continue;
            },
            _ => {
                return StepResult::Halted(HaltReason::UnknownOpcode);
            },
        }
    }
}

// ---------------------------------------------------------------------
// The jump-to-self safeguard, in specification terms.
// ---------------------------------------------------------------------

/// A step that fetches the all-zero word matches no pattern: it changes
/// nothing and halts the run.
pub proof fn lemma_zero_word_halts(
    pre: CPU,
    post: CPU,
    pb: Seq<u32>,
    qb: Seq<u32>,
    keys: Seq<bool>,
    r: StepResult,
)
    requires
        step_post(pre, post, pb, qb, keys, r),
        spec_word(pre) == 0,
    ensures
        r == StepResult::Halted(HaltReason::UnknownOpcode),
        unchanged_cpu(pre, post),
        qb == pb,
{
    assert((0u16 >> 12u16) == 0 && ((0u16 >> 8u16) & 0xF) == 0 && ((0u16 >> 4u16) & 0xF)
        == 0 && (0u16 & 0xF) == 0) by (bit_vector);
}

/// A jump whose target is its own address rewrites the two bytes it
/// stands in to zero before jumping, so the next fetch at that address
/// reads the all-zero word — and, by `lemma_zero_word_halts`, the step
/// after a self-jump halts the run.
pub proof fn lemma_self_jump_rewrites(
    pre: CPU,
    post: CPU,
    pb: Seq<u32>,
    qb: Seq<u32>,
    keys: Seq<bool>,
    r: StepResult,
)
    requires
        pre.wf(),
        step_post(pre, post, pb, qb, keys, r),
        op_a(spec_word(pre)) == 1,
        op_nnn(spec_word(pre)) == pre.program_counter,
    ensures
        spec_word(post) == 0,
{
    let w = spec_word(pre);
    assert((w >> 12u16) == 1 ==> (w & 0xFFF) < 4096) by (bit_vector);
    let nnn = op_nnn(w) as int;
    lemma_mod_bound(nnn + 1, 4096);
    if nnn < 4095 {
        lemma_small_mod((nnn + 1) as nat, 4096);
        assert((nnn + 1) % 4096 != nnn);
    } else {
        lemma_mod_self_0(4096);
        assert((nnn + 1) % 4096 == 0);
    }
    assert(post.memory@[nnn] == 0 && post.memory@[(nnn + 1) % 4096] == 0);
    assert(((0u8 as u16) << 8u16) | (0u8 as u16) == 0u16) by (bit_vector);
}

} // verus!
