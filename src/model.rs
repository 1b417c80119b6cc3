use vstd::prelude::*;

use crate::error::Chip8Error;

verus! {

/// Bytes of addressable memory.
pub const MEMORY_SIZE: usize = 4096;

/// Address at which a program is loaded and execution starts.
pub const PROGRAM_START: usize = 0x200;

/// Address of the first byte of the built-in hexadecimal font.
pub const FONT_START: usize = 0x050;

/// Number of bytes in the font: sixteen glyphs of five rows each.
pub const FONT_LEN: usize = 80;

/// Maximum number of pending return addresses.
pub const STACK_DEPTH: usize = 16;

/// Number of general-purpose registers, V0 to VF.
pub const REGISTER_COUNT: usize = 16;

/// Number of keys on the hexadecimal keypad.
pub const KEY_COUNT: usize = 16;

/// Width of the framebuffer in pixels.
pub const SCREEN_WIDTH: usize = 64;

/// Height of the framebuffer in pixels.
pub const SCREEN_HEIGHT: usize = 32;

/// Number of framebuffer cells, row-major.
pub const SCREEN_CELLS: usize = 2048;

/// Value of a lit framebuffer cell; an unlit cell holds zero.
pub const LIT: u32 = 0xFFFF_FFFF;

/// Index of the flag register VF.
pub const FLAG: usize = 15;

/// The abstract state of the machine.
pub struct Machine {
    pub memory: Seq<u8>,
    pub pc: u16,
    /// Pending return addresses, the most recent last.
    pub stack: Seq<u16>,
    pub index: u16,
    pub delay_timer: u8,
    pub sound_timer: u8,
    /// Framebuffer cells, row-major, each `0` or `LIT`.
    pub video: Seq<u32>,
    pub registers: Seq<u8>,
    pub keypad: Seq<bool>,
}

impl Machine {
    pub open spec fn well_formed(self) -> bool {
        &&& self.memory.len() == MEMORY_SIZE
        &&& self.stack.len() <= STACK_DEPTH
        &&& self.video.len() == SCREEN_CELLS
        &&& forall|c: int| 0 <= c < SCREEN_CELLS ==> #[trigger] self.video[c] == 0 || self.video[c] == LIT
        &&& self.registers.len() == REGISTER_COUNT
        &&& self.keypad.len() == KEY_COUNT
    }
}

/// Glyphs for the hexadecimal digits 0 to F, five rows of four pixels each.
pub open spec fn font_glyphs() -> Seq<u8> {
    seq![
        0xF0u8, 0x90, 0x90, 0x90, 0xF0,
        0x20, 0x60, 0x20, 0x20, 0x70,
        0xF0, 0x10, 0xF0, 0x80, 0xF0,
        0xF0, 0x10, 0xF0, 0x10, 0xF0,
        0x90, 0x90, 0xF0, 0x10, 0x10,
        0xF0, 0x80, 0xF0, 0x10, 0xF0,
        0xF0, 0x80, 0xF0, 0x90, 0xF0,
        0xF0, 0x10, 0x20, 0x40, 0x40,
        0xF0, 0x90, 0xF0, 0x90, 0xF0,
        0xF0, 0x90, 0xF0, 0x10, 0xF0,
        0xF0, 0x90, 0xF0, 0x90, 0x90,
        0xE0, 0x90, 0xE0, 0x90, 0xE0,
        0xF0, 0x80, 0x80, 0x80, 0xF0,
        0xE0, 0x90, 0x90, 0x90, 0xE0,
        0xF0, 0x80, 0xF0, 0x80, 0xF0,
        0xF0, 0x80, 0xF0, 0x80, 0x80,
    ]
}

/// Memory at power-on: the font at `FONT_START`, zero elsewhere.
pub open spec fn initial_memory() -> Seq<u8> {
    Seq::new(
        MEMORY_SIZE as nat,
        |a: int|
            if FONT_START <= a < FONT_START + FONT_LEN {
                font_glyphs()[a - FONT_START]
            } else {
                0u8
            },
    )
}

/// The machine at power-on.
pub open spec fn initial_machine() -> Machine {
    Machine {
        memory: initial_memory(),
        pc: PROGRAM_START as u16,
        stack: Seq::empty(),
        index: 0,
        delay_timer: 0,
        sound_timer: 0,
        video: Seq::new(SCREEN_CELLS as nat, |c: int| 0u32),
        registers: Seq::new(REGISTER_COUNT as nat, |r: int| 0u8),
        keypad: Seq::new(KEY_COUNT as nat, |k: int| false),
    }
}

/// Copies a program into memory at `PROGRAM_START`, or refuses one that does not fit.
pub open spec fn loaded(m: Machine, rom: Seq<u8>) -> Result<Machine, Chip8Error> {
    if PROGRAM_START + rom.len() > MEMORY_SIZE {
        Err(Chip8Error::RomTooLarge)
    } else {
        Ok(
            Machine {
                memory: Seq::new(
                    MEMORY_SIZE as nat,
                    |a: int|
                        if PROGRAM_START <= a < PROGRAM_START + rom.len() {
                            rom[a - PROGRAM_START]
                        } else {
                            m.memory[a]
                        },
                ),
                ..m
            },
        )
    }
}

/// One timer tick: each timer that is not zero goes down by one.
pub open spec fn timers_ticked(m: Machine) -> Machine {
    Machine {
        delay_timer: if m.delay_timer > 0 { (m.delay_timer - 1) as u8 } else { 0 },
        sound_timer: if m.sound_timer > 0 { (m.sound_timer - 1) as u8 } else { 0 },
        ..m
    }
}

// Fields of an instruction word.

/// The leading nibble, which selects the instruction family.
pub open spec fn op_family(op: u16) -> u16 {
    op / 4096
}

/// The second nibble, a register index.
pub open spec fn op_x(op: u16) -> u8 {
    ((op / 256) % 16) as u8
}

/// The third nibble, a register index.
pub open spec fn op_y(op: u16) -> u8 {
    ((op / 16) % 16) as u8
}

/// The fourth nibble.
pub open spec fn op_n(op: u16) -> u8 {
    (op % 16) as u8
}

/// The low byte.
pub open spec fn op_nn(op: u16) -> u8 {
    (op % 256) as u8
}

/// The low twelve bits, an address.
pub open spec fn op_nnn(op: u16) -> u16 {
    op % 4096
}

/// The big-endian instruction word at `addr`.
pub open spec fn word_at(memory: Seq<u8>, addr: int) -> u16 {
    (memory[addr] as int * 256 + memory[addr + 1] as int) as u16
}

// The effect of each instruction, on the machine whose program counter
// already points past that instruction.

pub open spec fn with_register(m: Machine, r: int, v: u8) -> Machine {
    Machine { registers: m.registers.update(r, v), ..m }
}

/// Sets register `r` to `v` after setting the flag register to `flag`, so that
/// `v` wins when `r` is the flag register.
pub open spec fn with_flag_then_register(m: Machine, flag: u8, r: int, v: u8) -> Machine {
    with_register(with_register(m, FLAG as int, flag), r, v)
}

pub open spec fn skipped_if(m: Machine, cond: bool) -> Machine {
    if cond {
        Machine { pc: (m.pc + 2) as u16, ..m }
    } else {
        m
    }
}

pub open spec fn cleared(m: Machine) -> Machine {
    Machine { video: Seq::new(SCREEN_CELLS as nat, |c: int| 0u32), ..m }
}

pub open spec fn returned(m: Machine) -> Result<Machine, Chip8Error> {
    if m.stack.len() == 0 {
        Err(Chip8Error::StackUnderflow)
    } else {
        Ok(Machine { pc: m.stack.last(), stack: m.stack.drop_last(), ..m })
    }
}

pub open spec fn called(m: Machine, addr: u16) -> Result<Machine, Chip8Error> {
    if m.stack.len() >= STACK_DEPTH {
        Err(Chip8Error::StackOverflow)
    } else {
        Ok(Machine { pc: addr, stack: m.stack.push(m.pc), ..m })
    }
}

/// The ALU family `8xyN`; an unknown `n` changes nothing.
pub open spec fn alu_result(m: Machine, x: int, y: int, n: u8) -> Machine {
    let vx = m.registers[x];
    let vy = m.registers[y];
    if n == 0 {
        with_register(m, x, vy)
    } else if n == 1 {
        with_register(m, x, vx | vy)
    } else if n == 2 {
        with_register(m, x, vx & vy)
    } else if n == 3 {
        with_register(m, x, vx ^ vy)
    } else if n == 4 {
        with_flag_then_register(
            m,
            if vx + vy > 255 { 1 } else { 0 },
            x,
            ((vx + vy) % 256) as u8,
        )
    } else if n == 5 {
        with_flag_then_register(
            m,
            if vx >= vy { 1 } else { 0 },
            x,
            ((vx - vy + 256) % 256) as u8,
        )
    } else if n == 6 {
        with_flag_then_register(m, (vx % 2) as u8, x, (vx / 2) as u8)
    } else if n == 7 {
        with_flag_then_register(
            m,
            if vy >= vx { 1 } else { 0 },
            x,
            ((vy - vx + 256) % 256) as u8,
        )
    } else if n == 0xE {
        with_flag_then_register(m, (vx / 128) as u8, x, ((vx * 2) % 256) as u8)
    } else {
        m
    }
}

/// Whether pixel `col` (0 is the leftmost) of a sprite row is set.
pub open spec fn sprite_pixel(row: u8, col: u8) -> bool {
    (row >> ((7 - col) as u8)) & 1u8 == 1u8
}

/// The sprite row that lands on framebuffer cell `c` for a sprite drawn at
/// vertical position `vy`.
pub open spec fn sprite_row_of(c: int, vy: u8) -> int {
    (c / SCREEN_WIDTH as int + 256 - vy) % SCREEN_HEIGHT as int
}

/// The sprite column that lands on framebuffer cell `c` for a sprite drawn at
/// horizontal position `vx`.
pub open spec fn sprite_col_of(c: int, vx: u8) -> int {
    (c % SCREEN_WIDTH as int + 256 - vx) % SCREEN_WIDTH as int
}

/// Whether a sprite of `height` rows read at `index`, drawn at `(vx, vy)`,
/// toggles framebuffer cell `c`. Coordinates wrap around the screen edges.
pub open spec fn sprite_covers(memory: Seq<u8>, index: u16, height: u8, vx: u8, vy: u8, c: int) -> bool {
    let row = sprite_row_of(c, vy);
    let col = sprite_col_of(c, vx);
    &&& row < height
    &&& col < 8
    &&& sprite_pixel(memory[index + row], col as u8)
}

/// Whether the sprite covers a lit cell of `video`.
pub open spec fn sprite_collides(memory: Seq<u8>, index: u16, height: u8, vx: u8, vy: u8, video: Seq<u32>) -> bool {
    exists|c: int|
        0 <= c < SCREEN_CELLS && #[trigger] sprite_covers(memory, index, height, vx, vy, c)
            && video[c] == LIT
}

/// `Dxyn`: toggles the cells that the sprite covers; VF tells whether any of
/// them was lit before.
pub open spec fn drawn(m: Machine, x: int, y: int, height: u8) -> Result<Machine, Chip8Error> {
    if m.index + height > MEMORY_SIZE {
        Err(Chip8Error::AddressOutOfRange)
    } else {
        let vx = m.registers[x];
        let vy = m.registers[y];
        let collision = sprite_collides(m.memory, m.index, height, vx, vy, m.video);
        Ok(
            Machine {
                video: Seq::new(
                    SCREEN_CELLS as nat,
                    |c: int|
                        if sprite_covers(m.memory, m.index, height, vx, vy, c) {
                            if m.video[c] == LIT { 0u32 } else { LIT }
                        } else {
                            m.video[c]
                        },
                ),
                registers: m.registers.update(FLAG as int, if collision { 1u8 } else { 0u8 }),
                ..m
            },
        )
    }
}

/// `Ex9E` (`pressed` true) and `ExA1`: skips on the state of the key named by Vx.
pub open spec fn key_skipped(m: Machine, x: int, pressed: bool) -> Result<Machine, Chip8Error> {
    let key = m.registers[x];
    if key >= KEY_COUNT {
        Err(Chip8Error::KeyOutOfRange)
    } else {
        Ok(skipped_if(m, m.keypad[key as int] == pressed))
    }
}

/// The lowest pressed key at or above `from`, or `KEY_COUNT` when there is none.
pub open spec fn lowest_pressed(keypad: Seq<bool>, from: int) -> int
    decreases KEY_COUNT - from,
{
    if from >= KEY_COUNT {
        KEY_COUNT as int
    } else if keypad[from] {
        from
    } else {
        lowest_pressed(keypad, from + 1)
    }
}

/// `Fx0A`: stores the lowest pressed key in Vx, or, with no key pressed, moves
/// the program counter back so that the instruction runs again.
pub open spec fn key_awaited(m: Machine, x: int) -> Machine {
    let k = lowest_pressed(m.keypad, 0);
    if k < KEY_COUNT {
        with_register(m, x, k as u8)
    } else {
        Machine { pc: (m.pc - 2) as u16, ..m }
    }
}

/// `Fx33`: the hundreds, tens and ones of Vx at I, I+1 and I+2.
pub open spec fn bcd_stored(m: Machine, x: int) -> Result<Machine, Chip8Error> {
    let v = m.registers[x];
    let i = m.index as int;
    if i + 3 > MEMORY_SIZE {
        Err(Chip8Error::AddressOutOfRange)
    } else {
        Ok(
            Machine {
                memory: m.memory.update(i, (v / 100) as u8).update(i + 1, ((v / 10) % 10) as u8).update(
                    i + 2,
                    (v % 10) as u8,
                ),
                ..m
            },
        )
    }
}

/// `Fx55`: V0 to Vx into memory from I on.
pub open spec fn registers_stored(m: Machine, x: int) -> Result<Machine, Chip8Error> {
    let i = m.index as int;
    if i + x + 1 > MEMORY_SIZE {
        Err(Chip8Error::AddressOutOfRange)
    } else {
        Ok(
            Machine {
                memory: Seq::new(
                    MEMORY_SIZE as nat,
                    |a: int|
                        if i <= a <= i + x {
                            m.registers[a - i]
                        } else {
                            m.memory[a]
                        },
                ),
                ..m
            },
        )
    }
}

/// `Fx65`: memory from I on into V0 to Vx.
pub open spec fn registers_loaded(m: Machine, x: int) -> Result<Machine, Chip8Error> {
    let i = m.index as int;
    if i + x + 1 > MEMORY_SIZE {
        Err(Chip8Error::AddressOutOfRange)
    } else {
        Ok(
            Machine {
                registers: Seq::new(
                    REGISTER_COUNT as nat,
                    |r: int|
                        if r <= x {
                            m.memory[i + r]
                        } else {
                            m.registers[r]
                        },
                ),
                ..m
            },
        )
    }
}

/// The family `00NN`: clear screen, return, and nothing for the rest.
pub open spec fn system_result(m: Machine, nn: u8) -> Result<Machine, Chip8Error> {
    if nn == 0xE0 {
        Ok(cleared(m))
    } else if nn == 0xEE {
        returned(m)
    } else {
        Ok(m)
    }
}

/// The family `ExNN`: key skips, and nothing for the rest.
pub open spec fn key_result(m: Machine, x: int, nn: u8) -> Result<Machine, Chip8Error> {
    if nn == 0x9E {
        key_skipped(m, x, true)
    } else if nn == 0xA1 {
        key_skipped(m, x, false)
    } else {
        Ok(m)
    }
}

/// The family `FxNN`: timers, index, memory transfers, and nothing for the rest.
pub open spec fn misc_result(m: Machine, x: int, nn: u8) -> Result<Machine, Chip8Error> {
    let vx = m.registers[x];
    if nn == 0x07 {
        Ok(with_register(m, x, m.delay_timer))
    } else if nn == 0x0A {
        Ok(key_awaited(m, x))
    } else if nn == 0x15 {
        Ok(Machine { delay_timer: vx, ..m })
    } else if nn == 0x18 {
        Ok(Machine { sound_timer: vx, ..m })
    } else if nn == 0x1E {
        Ok(Machine { index: ((m.index + vx) % 65536) as u16, ..m })
    } else if nn == 0x29 {
        Ok(Machine { index: (FONT_START + 5 * vx) as u16, ..m })
    } else if nn == 0x33 {
        bcd_stored(m, x)
    } else if nn == 0x55 {
        registers_stored(m, x)
    } else if nn == 0x65 {
        registers_loaded(m, x)
    } else {
        Ok(m)
    }
}

/// Executes instruction `op` on `m`, whose program counter already points past
/// it. `random` is the byte that `Cxnn` masks.
pub open spec fn executed(m: Machine, op: u16, random: u8) -> Result<Machine, Chip8Error> {
    let f = op_family(op);
    let x = op_x(op) as int;
    let y = op_y(op) as int;
    let nn = op_nn(op);
    let nnn = op_nnn(op);
    let vx = m.registers[x];
    let vy = m.registers[y];
    if f == 0x0 {
        system_result(m, nn)
    } else if f == 0x1 {
        Ok(Machine { pc: nnn, ..m })
    } else if f == 0x2 {
        called(m, nnn)
    } else if f == 0x3 {
        Ok(skipped_if(m, vx == nn))
    } else if f == 0x4 {
        Ok(skipped_if(m, vx != nn))
    } else if f == 0x5 {
        Ok(skipped_if(m, vx == vy))
    } else if f == 0x6 {
        Ok(with_register(m, x, nn))
    } else if f == 0x7 {
        Ok(with_register(m, x, ((vx + nn) % 256) as u8))
    } else if f == 0x8 {
        Ok(alu_result(m, x, y, op_n(op)))
    } else if f == 0x9 {
        Ok(skipped_if(m, vx != vy))
    } else if f == 0xA {
        Ok(Machine { index: nnn, ..m })
    } else if f == 0xB {
        Ok(Machine { pc: (nnn + m.registers[0]) as u16, ..m })
    } else if f == 0xC {
        Ok(with_register(m, x, random & nn))
    } else if f == 0xD {
        drawn(m, x, y, op_n(op))
    } else if f == 0xE {
        key_result(m, x, nn)
    } else {
        misc_result(m, x, nn)
    }
}

/// One instruction cycle: fetch the word at the program counter, move the
/// program counter past it, execute it. A failed cycle leaves the machine as
/// it was.
pub open spec fn stepped(m: Machine, random: u8) -> Result<Machine, Chip8Error> {
    if m.pc + 1 >= MEMORY_SIZE {
        Err(Chip8Error::AddressOutOfRange)
    } else {
        executed(Machine { pc: (m.pc + 2) as u16, ..m }, word_at(m.memory, m.pc as int), random)
    }
}

/// Whether `after` and `r` are what an operation with result `result` gives
/// from `before`: the new machine on success, the error and `before`
/// unchanged on failure.
pub open spec fn outcome(
    before: Machine,
    result: Result<Machine, Chip8Error>,
    after: Machine,
    r: Result<(), Chip8Error>,
) -> bool {
    match result {
        Ok(m) => r is Ok && after == m,
        Err(e) => r == Err::<(), Chip8Error>(e) && after == before,
    }
}

} // verus!
