use vstd::prelude::*;

use crate::error::Chip8Error;
use crate::model::{
    alu_result, bcd_stored, called, cleared, drawn, executed, font_glyphs, initial_machine,
    initial_memory, key_awaited, key_skipped, loaded, lowest_pressed, misc_result, outcome, registers_loaded,
    registers_stored, returned, skipped_if, sprite_col_of, sprite_covers,
    sprite_row_of, sprite_collides, stepped, timers_ticked, with_register, word_at, Machine, FLAG,
    FONT_LEN, FONT_START, KEY_COUNT, LIT, MEMORY_SIZE, PROGRAM_START, REGISTER_COUNT,
    SCREEN_CELLS, SCREEN_HEIGHT, SCREEN_WIDTH, STACK_DEPTH,
};
use crate::sprite::{lemma_sprite_cell_of_offsets, lemma_sprite_cell_offsets, sprite_cell};

verus! {

/// A CHIP-8 machine.
pub struct Chip8 {
    memory: [u8; 4096],
    pc: u16,
    stack: [u16; 16],
    sp: usize,
    index: u16,
    delay_timer: u8,
    sound_timer: u8,
    video_buffer: [u32; 2048],
    registers: [u8; 16],
    keypad: [bool; 16],
}

impl View for Chip8 {
    type V = Machine;

    closed spec fn view(&self) -> Machine {
        Machine {
            memory: self.memory@,
            pc: self.pc,
            stack: self.stack@.subrange(0, self.sp as int),
            index: self.index,
            delay_timer: self.delay_timer,
            sound_timer: self.sound_timer,
            video: self.video_buffer@,
            registers: self.registers@,
            keypad: self.keypad@,
        }
    }
}

impl Chip8 {
    pub closed spec fn wf(&self) -> bool {
        &&& self.sp <= STACK_DEPTH
        &&& self@.well_formed()
    }

    /// A machine at power-on: the font in memory, the program counter at
    /// `PROGRAM_START`, everything else zero.
    pub fn new() -> (r: Self)
        ensures
            r.wf(),
            r@ == initial_machine(),
    {
        let font: [u8; 80] = [
            0xF0, 0x90, 0x90, 0x90, 0xF0,
            0x20, 0x60, 0x20, 0x20, 0x70,
            0xF0, 0x10, 0xF0, 0x80, 0xF0,
            0xF0, 0x10, 0xF0, 0x10, 0xF0,
            0x90, 0x90, 0xF0, 0x10, 0x10,
            0xF0, 0x80, 0xF0, 0x10, 0xF0,
            0xF0, 0x80, 0xF0, 0x90, 0xF0,
            0xF0, 0x10, 0x20, 0x40, 0x40,
            0xF0, 0x90, 0xF0, 0x90, 0xF0,
            0xF0, 0x90, 0xF0, 0x10, 0xF0,
            0xF0, 0x90, 0xF0, 0x90, 0x90,
            0xE0, 0x90, 0xE0, 0x90, 0xE0,
            0xF0, 0x80, 0x80, 0x80, 0xF0,
            0xE0, 0x90, 0x90, 0x90, 0xE0,
            0xF0, 0x80, 0xF0, 0x80, 0xF0,
            0xF0, 0x80, 0xF0, 0x80, 0x80,
        ];
        assert(font@ =~= font_glyphs());
        let mut memory = [0u8; 4096];
        let mut i: usize = 0;
        while i < FONT_LEN
            invariant
                i <= FONT_LEN,
                font@ == font_glyphs(),
                forall|a: int|
                    0 <= a < MEMORY_SIZE ==> #[trigger] memory@[a] == if FONT_START <= a < FONT_START + i {
                        font_glyphs()[a - FONT_START]
                    } else {
                        0u8
                    },
            decreases FONT_LEN - i,
        {
            memory[FONT_START + i] = font[i];
            i += 1;
        }
        let r = Chip8 {
            memory,
            pc: PROGRAM_START as u16,
            stack: [0u16; 16],
            sp: 0,
            index: 0,
            delay_timer: 0,
            sound_timer: 0,
            video_buffer: [0u32; 2048],
            registers: [0u8; 16],
            keypad: [false; 16],
        };
        assert(r@.memory =~= initial_memory());
        assert(r@.stack =~= Seq::<u16>::empty());
        assert(r@.video =~= initial_machine().video);
        assert(r@.registers =~= initial_machine().registers);
        assert(r@.keypad =~= initial_machine().keypad);
        r
    }

    /// The framebuffer, 64 cells per row, each `0` (unlit) or `LIT`.
    pub fn get_video_buffer(&self) -> (r: &[u32; 2048])
        ensures
            r@ == self@.video,
    {
        &self.video_buffer
    }

    /// The program counter.
    pub fn pc(&self) -> (r: u16)
        ensures
            r == self@.pc,
    {
        self.pc
    }

    /// The index register I.
    pub fn index(&self) -> (r: u16)
        ensures
            r == self@.index,
    {
        self.index
    }

    /// Register V`i`.
    pub fn register(&self, i: usize) -> (r: u8)
        requires
            i < REGISTER_COUNT,
        ensures
            r == self@.registers[i as int],
    {
        self.registers[i]
    }

    /// The byte at address `addr`.
    pub fn memory_at(&self, addr: usize) -> (r: u8)
        requires
            addr < MEMORY_SIZE,
        ensures
            r == self@.memory[addr as int],
    {
        self.memory[addr]
    }

    /// The number of pending return addresses.
    pub fn stack_depth(&self) -> (r: usize)
        requires
            self.wf(),
        ensures
            r == self@.stack.len(),
    {
        self.sp
    }

    /// The delay timer.
    pub fn delay_timer(&self) -> (r: u8)
        ensures
            r == self@.delay_timer,
    {
        self.delay_timer
    }

    /// The sound timer.
    pub fn sound_timer(&self) -> (r: u8)
        ensures
            r == self@.sound_timer,
    {
        self.sound_timer
    }

    /// The keypad, for the input layer to write: entry `k` tells whether key
    /// `k` is held down.
    pub fn get_keypad(&mut self) -> (r: &mut [bool; 16])
        requires
            old(self).wf(),
        ensures
            r@ == old(self)@.keypad,
            final(self).wf(),
            final(self)@ == (Machine { keypad: final(r)@, ..old(self)@ }),
    {
        &mut self.keypad
    }

    /// One timer tick: the delay and sound timers each go down by one unless
    /// already zero.
    pub fn tick_clock(&mut self)
        requires
            old(self).wf(),
        ensures
            final(self).wf(),
            final(self)@ == timers_ticked(old(self)@),
    {
        if self.delay_timer > 0 {
            self.delay_timer -= 1;
        }
        if self.sound_timer > 0 {
            self.sound_timer -= 1;
        }
    }

    /// Copies `rom` into memory from `PROGRAM_START` on. A program that does
    /// not fit is refused with `RomTooLarge` and memory is left as it was.
    pub fn load_rom(&mut self, rom: &[u8]) -> (r: Result<(), Chip8Error>)
        requires
            old(self).wf(),
        ensures
            final(self).wf(),
            outcome(old(self)@, loaded(old(self)@, rom@), final(self)@, r),
    {
        if rom.len() > MEMORY_SIZE - PROGRAM_START {
            return Err(Chip8Error::RomTooLarge);
        }
        let ghost before = self@;
        let mut i: usize = 0;
        while i < rom.len()
            invariant
                i <= rom@.len(),
                PROGRAM_START + rom@.len() <= MEMORY_SIZE,
                self.wf(),
                self@ == (Machine { memory: self@.memory, ..before }),
                forall|a: int|
                    0 <= a < MEMORY_SIZE ==> #[trigger] self.memory@[a] == if PROGRAM_START <= a
                        < PROGRAM_START + i {
                        rom@[a - PROGRAM_START]
                    } else {
                        before.memory[a]
                    },
            decreases rom@.len() - i,
        {
            self.memory[PROGRAM_START + i] = rom[i];
            i += 1;
        }
        assert(self@.memory =~= loaded(before, rom@)->Ok_0.memory);
        Ok(())
    }

    /// One instruction cycle with `random` as the byte that `Cxnn` masks:
    /// fetch the big-endian word at the program counter, move the program
    /// counter past it, execute it. On an error the machine is left as it
    /// was before the cycle.
    pub fn tick_with_random(&mut self, random: u8) -> (r: Result<(), Chip8Error>)
        requires
            old(self).wf(),
        ensures
            final(self).wf(),
            outcome(old(self)@, stepped(old(self)@, random), final(self)@, r),
    {
        let pc = self.pc as usize;
        if pc + 1 >= MEMORY_SIZE {
            return Err(Chip8Error::AddressOutOfRange);
        }
        let op: u16 = self.memory[pc] as u16 * 256 + self.memory[pc + 1] as u16;
        assert(op == word_at(self@.memory, pc as int));
        self.pc += 2;
        let r = self.execute(op, random);
        if r.is_err() {
            self.pc = pc as u16;
        }
        r
    }

    /// One instruction cycle, as `tick_with_random` with a byte drawn from the
    /// random number generator.
    pub fn tick(&mut self) -> (r: Result<(), Chip8Error>)
        requires
            old(self).wf(),
        ensures
            final(self).wf(),
            exists|random: u8| outcome(old(self)@, stepped(old(self)@, random), final(self)@, r),
    {
        let random = random_byte();
        let r = self.tick_with_random(random);
        assert(outcome(old(self)@, stepped(old(self)@, random), self@, r));
        r
    }

    /// Decodes `op` and runs its handler; unknown instructions change nothing.
    fn execute(&mut self, op: u16, random: u8) -> (r: Result<(), Chip8Error>)
        requires
            old(self).wf(),
            2 <= old(self).pc <= MEMORY_SIZE,
        ensures
            final(self).wf(),
            outcome(old(self)@, executed(old(self)@, op, random), final(self)@, r),
    {
        let family: u16 = op / 4096;
        let x: u8 = ((op / 256) % 16) as u8;
        let y: u8 = ((op / 16) % 16) as u8;
        let n: u8 = (op % 16) as u8;
        let nn: u8 = (op % 256) as u8;
        let nnn: u16 = op % 4096;
        match family {
            0x0 => match nn {
                0xE0 => {
                    self.clear_screen();
                    Ok(())
                },
                0xEE => self.ret(),
                _ => Ok(()),
            },
            0x1 => {
                self.jump(nnn);
                Ok(())
            },
            0x2 => self.call(nnn),
            0x3 => {
                self.skip_if_equals_byte(x, nn);
                Ok(())
            },
            0x4 => {
                self.skip_if_not_equals_byte(x, nn);
                Ok(())
            },
            0x5 => {
                self.skip_if_equals_registers(x, y);
                Ok(())
            },
            0x6 => {
                self.load(x, nn);
                Ok(())
            },
            0x7 => {
                self.add_to_register(x, nn);
                Ok(())
            },
            0x8 => {
                self.alu(x, y, n);
                Ok(())
            },
            0x9 => {
                self.sne(x, y);
                Ok(())
            },
            0xA => {
                self.load_address_to_index(nnn);
                Ok(())
            },
            0xB => {
                self.jump_v0(nnn);
                Ok(())
            },
            0xC => {
                self.rnd_and_byte(x, nn, random);
                Ok(())
            },
            0xD => self.draw(x, y, n),
            0xE => match nn {
                0x9E => self.skip_key(x),
                0xA1 => self.skip_not_key(x),
                _ => Ok(()),
            },
            _ => self.misc(x, nn),
        }
    }

    /// The ALU family `8xyN`.
    fn alu(&mut self, v_x: u8, v_y: u8, n: u8)
        requires
            old(self).wf(),
            v_x < REGISTER_COUNT,
            v_y < REGISTER_COUNT,
        ensures
            final(self).wf(),
            final(self)@ == alu_result(old(self)@, v_x as int, v_y as int, n),
    {
        match n {
            0x0 => self.load_register(v_x, v_y),
            0x1 => self.or_registers(v_x, v_y),
            0x2 => self.and_registers(v_x, v_y),
            0x3 => self.xor_registers(v_x, v_y),
            0x4 => self.add_registers(v_x, v_y),
            0x5 => self.sub_registers(v_x, v_y),
            0x6 => self.shr_register(v_x),
            0x7 => self.subn_registers(v_x, v_y),
            0xE => self.shl_register(v_x),
            _ => {},
        }
    }

    /// The family `FxNN`.
    fn misc(&mut self, v_x: u8, nn: u8) -> (r: Result<(), Chip8Error>)
        requires
            old(self).wf(),
            2 <= old(self).pc <= MEMORY_SIZE,
            v_x < REGISTER_COUNT,
        ensures
            final(self).wf(),
            outcome(old(self)@, misc_result(old(self)@, v_x as int, nn), final(self)@, r),
    {
        match nn {
            0x07 => {
                self.load_timer(v_x);
                Ok(())
            },
            0x0A => {
                self.load_key(v_x);
                Ok(())
            },
            0x15 => {
                self.set_delay(v_x);
                Ok(())
            },
            0x18 => {
                self.set_sound(v_x);
                Ok(())
            },
            0x1E => {
                self.add_to_index(v_x);
                Ok(())
            },
            0x29 => {
                self.ld_digit_to_index(v_x);
                Ok(())
            },
            0x33 => self.bcd_to_index(v_x),
            0x55 => self.store_to_index(v_x),
            0x65 => self.read_from_index(v_x),
            _ => Ok(()),
        }
    }

    // Instruction handlers. Each runs with the program counter already past
    // its instruction; `v_x` and `v_y` are register indices.

    fn clear_screen(&mut self)
        requires
            old(self).wf(),
        ensures
            final(self).wf(),
            final(self)@ == cleared(old(self)@),
    {
        self.video_buffer = [0u32; 2048];
        assert(self@.video =~= cleared(old(self)@).video);
    }

    fn ret(&mut self) -> (r: Result<(), Chip8Error>)
        requires
            old(self).wf(),
        ensures
            final(self).wf(),
            outcome(old(self)@, returned(old(self)@), final(self)@, r),
    {
        if self.sp == 0 {
            return Err(Chip8Error::StackUnderflow);
        }
        self.sp -= 1;
        self.pc = self.stack[self.sp];
        assert(self@.stack =~= old(self)@.stack.drop_last());
        Ok(())
    }

    fn jump(&mut self, address: u16)
        requires
            old(self).wf(),
        ensures
            final(self).wf(),
            final(self)@ == (Machine { pc: address, ..old(self)@ }),
    {
        self.pc = address;
    }

    fn call(&mut self, address: u16) -> (r: Result<(), Chip8Error>)
        requires
            old(self).wf(),
        ensures
            final(self).wf(),
            outcome(old(self)@, called(old(self)@, address), final(self)@, r),
    {
        if self.sp >= STACK_DEPTH {
            return Err(Chip8Error::StackOverflow);
        }
        self.stack[self.sp] = self.pc;
        self.sp += 1;
        self.pc = address;
        assert(self@.stack =~= old(self)@.stack.push(old(self).pc));
        Ok(())
    }

    fn skip_if(&mut self, cond: bool)
        requires
            old(self).wf(),
            old(self).pc <= MEMORY_SIZE,
        ensures
            final(self).wf(),
            final(self)@ == skipped_if(old(self)@, cond),
    {
        if cond {
            self.pc += 2;
        }
    }

    fn skip_if_equals_byte(&mut self, v_x: u8, byte: u8)
        requires
            old(self).wf(),
            old(self).pc <= MEMORY_SIZE,
            v_x < REGISTER_COUNT,
        ensures
            final(self).wf(),
            final(self)@ == skipped_if(old(self)@, old(self)@.registers[v_x as int] == byte),
    {
        let cond = self.registers[v_x as usize] == byte;
        self.skip_if(cond);
    }

    fn skip_if_not_equals_byte(&mut self, v_x: u8, byte: u8)
        requires
            old(self).wf(),
            old(self).pc <= MEMORY_SIZE,
            v_x < REGISTER_COUNT,
        ensures
            final(self).wf(),
            final(self)@ == skipped_if(old(self)@, old(self)@.registers[v_x as int] != byte),
    {
        let cond = self.registers[v_x as usize] != byte;
        self.skip_if(cond);
    }

    fn skip_if_equals_registers(&mut self, v_x: u8, v_y: u8)
        requires
            old(self).wf(),
            old(self).pc <= MEMORY_SIZE,
            v_x < REGISTER_COUNT,
            v_y < REGISTER_COUNT,
        ensures
            final(self).wf(),
            final(self)@ == skipped_if(
                old(self)@,
                old(self)@.registers[v_x as int] == old(self)@.registers[v_y as int],
            ),
    {
        let cond = self.registers[v_x as usize] == self.registers[v_y as usize];
        self.skip_if(cond);
    }

    fn sne(&mut self, v_x: u8, v_y: u8)
        requires
            old(self).wf(),
            old(self).pc <= MEMORY_SIZE,
            v_x < REGISTER_COUNT,
            v_y < REGISTER_COUNT,
        ensures
            final(self).wf(),
            final(self)@ == skipped_if(
                old(self)@,
                old(self)@.registers[v_x as int] != old(self)@.registers[v_y as int],
            ),
    {
        let cond = self.registers[v_x as usize] != self.registers[v_y as usize];
        self.skip_if(cond);
    }

    fn set_register(&mut self, v_x: u8, value: u8)
        requires
            old(self).wf(),
            v_x < REGISTER_COUNT,
        ensures
            final(self).wf(),
            final(self)@ == with_register(old(self)@, v_x as int, value),
    {
        self.registers[v_x as usize] = value;
    }

    fn load(&mut self, v_x: u8, byte: u8)
        requires
            old(self).wf(),
            v_x < REGISTER_COUNT,
        ensures
            final(self).wf(),
            final(self)@ == with_register(old(self)@, v_x as int, byte),
    {
        self.set_register(v_x, byte);
    }

    fn add_to_register(&mut self, v_x: u8, byte: u8)
        requires
            old(self).wf(),
            v_x < REGISTER_COUNT,
        ensures
            final(self).wf(),
            final(self)@ == with_register(
                old(self)@,
                v_x as int,
                ((old(self)@.registers[v_x as int] + byte) % 256) as u8,
            ),
    {
        let sum: u16 = self.registers[v_x as usize] as u16 + byte as u16;
        self.set_register(v_x, (sum % 256) as u8);
    }

    fn load_register(&mut self, v_x: u8, v_y: u8)
        requires
            old(self).wf(),
            v_x < REGISTER_COUNT,
            v_y < REGISTER_COUNT,
        ensures
            final(self).wf(),
            final(self)@ == alu_result(old(self)@, v_x as int, v_y as int, 0),
    {
        let vy = self.registers[v_y as usize];
        self.set_register(v_x, vy);
    }

    fn or_registers(&mut self, v_x: u8, v_y: u8)
        requires
            old(self).wf(),
            v_x < REGISTER_COUNT,
            v_y < REGISTER_COUNT,
        ensures
            final(self).wf(),
            final(self)@ == alu_result(old(self)@, v_x as int, v_y as int, 1),
    {
        let v = self.registers[v_x as usize] | self.registers[v_y as usize];
        self.set_register(v_x, v);
    }

    fn and_registers(&mut self, v_x: u8, v_y: u8)
        requires
            old(self).wf(),
            v_x < REGISTER_COUNT,
            v_y < REGISTER_COUNT,
        ensures
            final(self).wf(),
            final(self)@ == alu_result(old(self)@, v_x as int, v_y as int, 2),
    {
        let v = self.registers[v_x as usize] & self.registers[v_y as usize];
        self.set_register(v_x, v);
    }

    fn xor_registers(&mut self, v_x: u8, v_y: u8)
        requires
            old(self).wf(),
            v_x < REGISTER_COUNT,
            v_y < REGISTER_COUNT,
        ensures
            final(self).wf(),
            final(self)@ == alu_result(old(self)@, v_x as int, v_y as int, 3),
    {
        let v = self.registers[v_x as usize] ^ self.registers[v_y as usize];
        self.set_register(v_x, v);
    }

    /// Sets the flag register, then register `v_x`.
    fn set_flag_then_register(&mut self, flag: u8, v_x: u8, value: u8)
        requires
            old(self).wf(),
            v_x < REGISTER_COUNT,
        ensures
            final(self).wf(),
            final(self)@ == with_register(
                with_register(old(self)@, FLAG as int, flag),
                v_x as int,
                value,
            ),
    {
        self.registers[FLAG] = flag;
        self.registers[v_x as usize] = value;
    }

    fn add_registers(&mut self, v_x: u8, v_y: u8)
        requires
            old(self).wf(),
            v_x < REGISTER_COUNT,
            v_y < REGISTER_COUNT,
        ensures
            final(self).wf(),
            final(self)@ == alu_result(old(self)@, v_x as int, v_y as int, 4),
    {
        let sum: u16 = self.registers[v_x as usize] as u16 + self.registers[v_y as usize] as u16;
        let flag: u8 = if sum > 255 { 1 } else { 0 };
        self.set_flag_then_register(flag, v_x, (sum % 256) as u8);
    }

    fn sub_registers(&mut self, v_x: u8, v_y: u8)
        requires
            old(self).wf(),
            v_x < REGISTER_COUNT,
            v_y < REGISTER_COUNT,
        ensures
            final(self).wf(),
            final(self)@ == alu_result(old(self)@, v_x as int, v_y as int, 5),
    {
        let vx = self.registers[v_x as usize];
        let vy = self.registers[v_y as usize];
        let flag: u8 = if vx >= vy { 1 } else { 0 };
        let diff: u16 = (vx as u16 + 256 - vy as u16) % 256;
        self.set_flag_then_register(flag, v_x, diff as u8);
    }

    fn shr_register(&mut self, v_x: u8)
        requires
            old(self).wf(),
            v_x < REGISTER_COUNT,
        ensures
            final(self).wf(),
            final(self)@ == with_register(
                with_register(old(self)@, FLAG as int, old(self)@.registers[v_x as int] % 2),
                v_x as int,
                old(self)@.registers[v_x as int] / 2,
            ),
    {
        let vx = self.registers[v_x as usize];
        self.set_flag_then_register(vx % 2, v_x, vx / 2);
    }

    fn subn_registers(&mut self, v_x: u8, v_y: u8)
        requires
            old(self).wf(),
            v_x < REGISTER_COUNT,
            v_y < REGISTER_COUNT,
        ensures
            final(self).wf(),
            final(self)@ == alu_result(old(self)@, v_x as int, v_y as int, 7),
    {
        let vx = self.registers[v_x as usize];
        let vy = self.registers[v_y as usize];
        let flag: u8 = if vy >= vx { 1 } else { 0 };
        let diff: u16 = (vy as u16 + 256 - vx as u16) % 256;
        self.set_flag_then_register(flag, v_x, diff as u8);
    }

    fn shl_register(&mut self, v_x: u8)
        requires
            old(self).wf(),
            v_x < REGISTER_COUNT,
        ensures
            final(self).wf(),
            final(self)@ == with_register(
                with_register(old(self)@, FLAG as int, old(self)@.registers[v_x as int] / 128),
                v_x as int,
                ((old(self)@.registers[v_x as int] * 2) % 256) as u8,
            ),
    {
        let vx = self.registers[v_x as usize];
        let shifted: u16 = (vx as u16 * 2) % 256;
        self.set_flag_then_register(vx / 128, v_x, shifted as u8);
    }

    fn load_address_to_index(&mut self, addr: u16)
        requires
            old(self).wf(),
        ensures
            final(self).wf(),
            final(self)@ == (Machine { index: addr, ..old(self)@ }),
    {
        self.index = addr;
    }

    fn jump_v0(&mut self, addr: u16)
        requires
            old(self).wf(),
            addr < 4096,
        ensures
            final(self).wf(),
            final(self)@ == (Machine { pc: (addr + old(self)@.registers[0]) as u16, ..old(self)@ }),
    {
        self.pc = addr + self.registers[0] as u16;
    }

    fn rnd_and_byte(&mut self, v_x: u8, byte: u8, random: u8)
        requires
            old(self).wf(),
            v_x < REGISTER_COUNT,
        ensures
            final(self).wf(),
            final(self)@ == with_register(old(self)@, v_x as int, random & byte),
    {
        self.set_register(v_x, random & byte);
    }

    fn skip_key(&mut self, v_x: u8) -> (r: Result<(), Chip8Error>)
        requires
            old(self).wf(),
            old(self).pc <= MEMORY_SIZE,
            v_x < REGISTER_COUNT,
        ensures
            final(self).wf(),
            outcome(old(self)@, key_skipped(old(self)@, v_x as int, true), final(self)@, r),
    {
        let key = self.registers[v_x as usize];
        if key as usize >= KEY_COUNT {
            return Err(Chip8Error::KeyOutOfRange);
        }
        let cond = self.keypad[key as usize];
        self.skip_if(cond);
        Ok(())
    }

    fn skip_not_key(&mut self, v_x: u8) -> (r: Result<(), Chip8Error>)
        requires
            old(self).wf(),
            old(self).pc <= MEMORY_SIZE,
            v_x < REGISTER_COUNT,
        ensures
            final(self).wf(),
            outcome(old(self)@, key_skipped(old(self)@, v_x as int, false), final(self)@, r),
    {
        let key = self.registers[v_x as usize];
        if key as usize >= KEY_COUNT {
            return Err(Chip8Error::KeyOutOfRange);
        }
        let cond = !self.keypad[key as usize];
        self.skip_if(cond);
        Ok(())
    }

    fn load_timer(&mut self, v_x: u8)
        requires
            old(self).wf(),
            v_x < REGISTER_COUNT,
        ensures
            final(self).wf(),
            final(self)@ == with_register(old(self)@, v_x as int, old(self)@.delay_timer),
    {
        let t = self.delay_timer;
        self.set_register(v_x, t);
    }

    fn load_key(&mut self, v_x: u8)
        requires
            old(self).wf(),
            old(self).pc >= 2,
            v_x < REGISTER_COUNT,
        ensures
            final(self).wf(),
            final(self)@ == key_awaited(old(self)@, v_x as int),
    {
        let mut i: usize = 0;
        while i < KEY_COUNT && !self.keypad[i]
            invariant
                i <= KEY_COUNT,
                self.keypad@.len() == KEY_COUNT,
                lowest_pressed(self.keypad@, 0) == lowest_pressed(self.keypad@, i as int),
            decreases KEY_COUNT - i,
        {
            i += 1;
        }
        if i == KEY_COUNT {
            self.pc -= 2;
        } else {
            self.set_register(v_x, i as u8);
        }
    }

    fn set_delay(&mut self, v_x: u8)
        requires
            old(self).wf(),
            v_x < REGISTER_COUNT,
        ensures
            final(self).wf(),
            final(self)@ == (Machine { delay_timer: old(self)@.registers[v_x as int], ..old(self)@ }),
    {
        self.delay_timer = self.registers[v_x as usize];
    }

    fn set_sound(&mut self, v_x: u8)
        requires
            old(self).wf(),
            v_x < REGISTER_COUNT,
        ensures
            final(self).wf(),
            final(self)@ == (Machine { sound_timer: old(self)@.registers[v_x as int], ..old(self)@ }),
    {
        self.sound_timer = self.registers[v_x as usize];
    }

    fn add_to_index(&mut self, v_x: u8)
        requires
            old(self).wf(),
            v_x < REGISTER_COUNT,
        ensures
            final(self).wf(),
            final(self)@ == (Machine {
                index: ((old(self)@.index + old(self)@.registers[v_x as int]) % 65536) as u16,
                ..old(self)@
            }),
    {
        let sum: u32 = self.index as u32 + self.registers[v_x as usize] as u32;
        self.index = (sum % 65536) as u16;
    }

    fn ld_digit_to_index(&mut self, v_x: u8)
        requires
            old(self).wf(),
            v_x < REGISTER_COUNT,
        ensures
            final(self).wf(),
            final(self)@ == (Machine {
                index: (FONT_START + 5 * old(self)@.registers[v_x as int]) as u16,
                ..old(self)@
            }),
    {
        self.index = FONT_START as u16 + 5 * self.registers[v_x as usize] as u16;
    }

    fn bcd_to_index(&mut self, v_x: u8) -> (r: Result<(), Chip8Error>)
        requires
            old(self).wf(),
            v_x < REGISTER_COUNT,
        ensures
            final(self).wf(),
            outcome(old(self)@, bcd_stored(old(self)@, v_x as int), final(self)@, r),
    {
        let i = self.index as usize;
        if i + 3 > MEMORY_SIZE {
            return Err(Chip8Error::AddressOutOfRange);
        }
        let value: u8 = self.registers[v_x as usize];
        self.memory[i] = value / 100;
        self.memory[i + 1] = (value / 10) % 10;
        self.memory[i + 2] = value % 10;
        Ok(())
    }

    fn store_to_index(&mut self, v_x: u8) -> (r: Result<(), Chip8Error>)
        requires
            old(self).wf(),
            v_x < REGISTER_COUNT,
        ensures
            final(self).wf(),
            outcome(old(self)@, registers_stored(old(self)@, v_x as int), final(self)@, r),
    {
        let start = self.index as usize;
        let last = v_x as usize;
        if start + last + 1 > MEMORY_SIZE {
            return Err(Chip8Error::AddressOutOfRange);
        }
        let ghost before = self@;
        let mut i: usize = 0;
        while i <= last
            invariant
                last < REGISTER_COUNT,
                start + last + 1 <= MEMORY_SIZE,
                start == before.index,
                i <= last + 1,
                self.wf(),
                self@ == (Machine { memory: self@.memory, ..before }),
                forall|a: int|
                    0 <= a < MEMORY_SIZE ==> #[trigger] self.memory@[a] == if start <= a < start + i {
                        before.registers[a - start]
                    } else {
                        before.memory[a]
                    },
            decreases last + 1 - i,
        {
            self.memory[start + i] = self.registers[i];
            i += 1;
        }
        assert(self@.memory =~= registers_stored(before, v_x as int)->Ok_0.memory);
        Ok(())
    }

    fn read_from_index(&mut self, v_x: u8) -> (r: Result<(), Chip8Error>)
        requires
            old(self).wf(),
            v_x < REGISTER_COUNT,
        ensures
            final(self).wf(),
            outcome(old(self)@, registers_loaded(old(self)@, v_x as int), final(self)@, r),
    {
        let start = self.index as usize;
        let last = v_x as usize;
        if start + last + 1 > MEMORY_SIZE {
            return Err(Chip8Error::AddressOutOfRange);
        }
        let ghost before = self@;
        let mut i: usize = 0;
        while i <= last
            invariant
                last < REGISTER_COUNT,
                start + last + 1 <= MEMORY_SIZE,
                start == before.index,
                i <= last + 1,
                self.wf(),
                self@ == (Machine { registers: self@.registers, ..before }),
                forall|r: int|
                    0 <= r < REGISTER_COUNT ==> #[trigger] self.registers@[r] == if r < i {
                        before.memory[start + r]
                    } else {
                        before.registers[r]
                    },
            decreases last + 1 - i,
        {
            self.registers[i] = self.memory[start + i];
            i += 1;
        }
        assert(self@.registers =~= registers_loaded(before, v_x as int)->Ok_0.registers);
        Ok(())
    }

    /// `Dxyn`: XOR-draws a sprite of `height` rows read from memory at the
    /// index register, at the position held in `v_x` and `v_y`.
    fn draw(&mut self, v_x: u8, v_y: u8, height: u8) -> (r: Result<(), Chip8Error>)
        requires
            old(self).wf(),
            v_x < REGISTER_COUNT,
            v_y < REGISTER_COUNT,
            height < 16,
        ensures
            final(self).wf(),
            outcome(old(self)@, drawn(old(self)@, v_x as int, v_y as int, height), final(self)@, r),
    {
        let start = self.index as usize;
        if start + height as usize > MEMORY_SIZE {
            return Err(Chip8Error::AddressOutOfRange);
        }
        let x = self.registers[v_x as usize];
        let y = self.registers[v_y as usize];
        let ghost before = self@;
        let mut collision = false;
        let mut row: u8 = 0;
        while row < height
            invariant
                height < 16,
                row <= height,
                start == before.index,
                start + height <= MEMORY_SIZE,
                x == before.registers[v_x as int],
                y == before.registers[v_y as int],
                self.wf(),
                self@ == (Machine { video: self@.video, ..before }),
                forall|c: int|
                    0 <= c < SCREEN_CELLS ==> #[trigger] self.video_buffer@[c] == if drawn_before(
                        before,
                        height,
                        x,
                        y,
                        c,
                        row as int,
                        0,
                    ) {
                        toggled(before.video[c])
                    } else {
                        before.video[c]
                    },
                collision == collides(before, height, x, y, row as int, 0),
            decreases height - row,
        {
            let sprite_byte = self.memory[start + row as usize];
            let mut col: u8 = 0;
            while col < 8
                invariant
                    height < 16,
                    row < height,
                    col <= 8,
                    start == before.index,
                    start + height <= MEMORY_SIZE,
                    sprite_byte == before.memory[start + row],
                    self.wf(),
                    self@ == (Machine { video: self@.video, ..before }),
                    forall|c: int|
                        0 <= c < SCREEN_CELLS ==> #[trigger] self.video_buffer@[c] == if drawn_before(
                            before,
                            height,
                            x,
                            y,
                            c,
                            row as int,
                            col as int,
                        ) {
                            toggled(before.video[c])
                        } else {
                            before.video[c]
                        },
                    collision == collides(before, height, x, y, row as int, col as int),
                decreases 8 - col,
            {
                let shift: u8 = 7 - col;
                if (sprite_byte >> shift) & 1u8 == 1u8 {
                    let x_pos = (x as usize + col as usize) % SCREEN_WIDTH;
                    let y_pos = (y as usize + row as usize) % SCREEN_HEIGHT;
                    let cell = y_pos * SCREEN_WIDTH + x_pos;
                    proof {
                        lemma_sprite_cell_offsets(x, y, row as int, col as int);
                        assert(cell == sprite_cell(x, y, row as int, col as int));
                        assert(sprite_covers(before.memory, before.index, height, x, y, cell as int));
                        assert forall|c: int| 0 <= c < SCREEN_CELLS implies drawn_before(
                            before,
                            height,
                            x,
                            y,
                            c,
                            row as int,
                            col + 1,
                        ) == (drawn_before(before, height, x, y, c, row as int, col as int) || c
                            == cell) by {
                            lemma_sprite_cell_of_offsets(x, y, c);
                        }
                        assert(!drawn_before(before, height, x, y, cell as int, row as int, col as int));
                        lemma_collides_extend(
                            before,
                            height,
                            x,
                            y,
                            (row as int, col as int),
                            (row as int, col + 1),
                            cell as int,
                            true,
                        );
                    }
                    if self.video_buffer[cell] == LIT {
                        collision = true;
                        self.video_buffer[cell] = 0;
                        assert(drawn_before(before, height, x, y, cell as int, row as int, col + 1));
                    } else {
                        self.video_buffer[cell] = LIT;
                    }
                } else {
                    proof {
                        assert forall|c: int| 0 <= c < SCREEN_CELLS implies drawn_before(
                            before,
                            height,
                            x,
                            y,
                            c,
                            row as int,
                            col + 1,
                        ) == drawn_before(before, height, x, y, c, row as int, col as int) by {
                            if sprite_row_of(c, y) == row && sprite_col_of(c, x) == col {
                                lemma_sprite_cell_of_offsets(x, y, c);
                                lemma_sprite_cell_offsets(x, y, row as int, col as int);
                            }
                        }
                        lemma_collides_extend(
                            before,
                            height,
                            x,
                            y,
                            (row as int, col as int),
                            (row as int, col + 1),
                            0,
                            false,
                        );
                    }
                }
                col += 1;
            }
            proof {
                lemma_collides_extend(
                    before,
                    height,
                    x,
                    y,
                    (row as int, 8),
                    (row + 1, 0),
                    0,
                    false,
                );
            }
            row += 1;
        }
        let flag: u8 = if collision { 1 } else { 0 };
        self.registers[FLAG] = flag;
        proof {
            let m = drawn(before, v_x as int, v_y as int, height)->Ok_0;
            assert forall|c: int| 0 <= c < SCREEN_CELLS implies drawn_before(
                before,
                height,
                x,
                y,
                c,
                height as int,
                0,
            ) == sprite_covers(before.memory, before.index, height, x, y, c) by {}
            if collision {
                let c = choose|c: int|
                    0 <= c < SCREEN_CELLS && #[trigger] drawn_before(
                        before,
                        height,
                        x,
                        y,
                        c,
                        height as int,
                        0,
                    ) && before.video[c] == LIT;
                assert(sprite_covers(before.memory, before.index, height, x, y, c));
            }
            if sprite_collides(before.memory, before.index, height, x, y, before.video) {
                let c = choose|c: int|
                    0 <= c < SCREEN_CELLS && #[trigger] sprite_covers(
                        before.memory,
                        before.index,
                        height,
                        x,
                        y,
                        c,
                    ) && before.video[c] == LIT;
                assert(drawn_before(before, height, x, y, c, height as int, 0));
            }
            assert(self@.video =~= m.video);
            assert(self@.registers =~= m.registers);
        }
        Ok(())
    }
}

/// Relies on `rand::random`: a byte from the thread-local generator. Nothing
/// is known of its value.
#[verifier::external_body]
fn random_byte() -> (r: u8) {
    rand::random::<u8>()
}

/// A lit cell goes dark and a dark cell lights.
spec fn toggled(cell: u32) -> u32 {
    if cell == LIT { 0 } else { LIT }
}

/// Whether cell `c` is covered by the sprite and comes before row `row`,
/// column `col` in drawing order.
spec fn drawn_before(m: Machine, height: u8, vx: u8, vy: u8, c: int, row: int, col: int) -> bool {
    &&& sprite_covers(m.memory, m.index, height, vx, vy, c)
    &&& (sprite_row_of(c, vy) < row || (sprite_row_of(c, vy) == row && sprite_col_of(c, vx) < col))
}

/// Whether a cell covered before row `row`, column `col` was lit.
spec fn collides(m: Machine, height: u8, vx: u8, vy: u8, row: int, col: int) -> bool {
    exists|c: int|
        0 <= c < SCREEN_CELLS && #[trigger] drawn_before(m, height, vx, vy, c, row, col)
            && m.video[c] == LIT
}

/// Moving from position `from` to position `to` in drawing order adds at most
/// one cell, `cell` when `added`, to those drawn.
proof fn lemma_collides_extend(
    m: Machine,
    height: u8,
    vx: u8,
    vy: u8,
    from: (int, int),
    to: (int, int),
    cell: int,
    added: bool,
)
    requires
        0 <= cell < SCREEN_CELLS,
        forall|c: int|
            0 <= c < SCREEN_CELLS ==> #[trigger] drawn_before(m, height, vx, vy, c, to.0, to.1) == (
            drawn_before(m, height, vx, vy, c, from.0, from.1) || (added && c == cell)),
    ensures
        collides(m, height, vx, vy, to.0, to.1) == (collides(m, height, vx, vy, from.0, from.1) || (
        added && drawn_before(m, height, vx, vy, cell, to.0, to.1) && m.video[cell] == LIT)),
{
    if collides(m, height, vx, vy, to.0, to.1) {
        let c = choose|c: int|
            0 <= c < SCREEN_CELLS && #[trigger] drawn_before(m, height, vx, vy, c, to.0, to.1)
                && m.video[c] == LIT;
        if !(added && c == cell) {
            assert(drawn_before(m, height, vx, vy, c, from.0, from.1));
        }
    }
    if collides(m, height, vx, vy, from.0, from.1) {
        let c = choose|c: int|
            0 <= c < SCREEN_CELLS && #[trigger] drawn_before(m, height, vx, vy, c, from.0, from.1)
                && m.video[c] == LIT;
        assert(drawn_before(m, height, vx, vy, c, to.0, to.1));
    }
}

} // verus!
