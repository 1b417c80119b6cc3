use vstd::prelude::*;

use crate::model::{
    lowest_pressed, op_family, op_n, op_nn, op_nnn, op_x, op_y, sprite_collides, sprite_covers,
    stepped, word_at, Machine, FLAG, KEY_COUNT, LIT, MEMORY_SIZE, SCREEN_CELLS, STACK_DEPTH,
};

verus! {

/// The fields of the instruction word made of bytes `hi` and `lo`.
pub proof fn lemma_decode(hi: u8, lo: u8)
    ensures
        ({
            let op = (hi as int * 256 + lo as int) as u16;
            &&& op_family(op) == hi / 16
            &&& op_x(op) == hi % 16
            &&& op_y(op) == lo / 16
            &&& op_n(op) == lo % 16
            &&& op_nn(op) == lo
            &&& op_nnn(op) == (hi % 16) * 256 + lo
        }),
{
    let op = (hi as int * 256 + lo as int) as u16;
    assert(op as int == hi * 256 + lo);
    vstd::arithmetic::div_mod::lemma_fundamental_div_mod_converse(op as int, 256, hi as int, lo as int);
    vstd::arithmetic::div_mod::lemma_fundamental_div_mod_converse(
        op as int,
        4096,
        (hi / 16) as int,
        (hi % 16) * 256 + lo,
    );
    vstd::arithmetic::div_mod::lemma_fundamental_div_mod_converse(
        op as int,
        16,
        hi * 16 + lo / 16,
        (lo % 16) as int,
    );
    assert(op / 16 == hi * 16 + lo / 16);
    assert((hi * 16 + lo / 16) % 16 == lo / 16);
}

/// `8xy4`, with Vx other than the flag register: VF becomes 1 exactly when
/// the sum of Vx and Vy exceeds 255, and Vx becomes that sum modulo 256.
pub proof fn law_add_sets_carry(m: Machine, x: int, y: int, random: u8)
    requires
        m.well_formed(),
        0 <= x < FLAG,
        0 <= y < 16,
        m.pc + 1 < MEMORY_SIZE,
        m.memory[m.pc as int] == 0x80 + x,
        m.memory[m.pc + 1] == y * 16 + 4,
    ensures
        stepped(m, random) is Ok,
        ({
            let after = stepped(m, random)->Ok_0;
            let sum = m.registers[x] + m.registers[y];
            &&& after.registers[FLAG as int] == if sum > 255 { 1u8 } else { 0u8 }
            &&& after.registers[x] == sum % 256
        }),
{
    lemma_decode(m.memory[m.pc as int], m.memory[m.pc + 1]);
}

/// `8xy5`, with Vx other than the flag register: VF becomes 1 exactly when
/// Vx was at least Vy, and Vx becomes their difference modulo 256.
pub proof fn law_sub_sets_no_borrow(m: Machine, x: int, y: int, random: u8)
    requires
        m.well_formed(),
        0 <= x < FLAG,
        0 <= y < 16,
        m.pc + 1 < MEMORY_SIZE,
        m.memory[m.pc as int] == 0x80 + x,
        m.memory[m.pc + 1] == y * 16 + 5,
    ensures
        stepped(m, random) is Ok,
        ({
            let after = stepped(m, random)->Ok_0;
            let vx = m.registers[x];
            let vy = m.registers[y];
            &&& after.registers[FLAG as int] == if vx >= vy { 1u8 } else { 0u8 }
            &&& after.registers[x] == (vx - vy) % 256
        }),
{
    lemma_decode(m.memory[m.pc as int], m.memory[m.pc + 1]);
    let vx = m.registers[x];
    let vy = m.registers[y];
    vstd::arithmetic::div_mod::lemma_mod_add_multiples_vanish(vx - vy, 256);
    assert((vx - vy + 256) % 256 == (vx - vy) % 256);
}

/// `00E0` leaves every framebuffer cell unlit, whatever was on screen.
pub proof fn law_clear_screen(m: Machine, random: u8)
    requires
        m.well_formed(),
        m.pc + 1 < MEMORY_SIZE,
        m.memory[m.pc as int] == 0x00,
        m.memory[m.pc + 1] == 0xE0,
    ensures
        stepped(m, random) is Ok,
        stepped(m, random)->Ok_0.video.len() == SCREEN_CELLS,
        forall|c: int| 0 <= c < SCREEN_CELLS ==> #[trigger] stepped(m, random)->Ok_0.video[c] == 0,
{
    lemma_decode(m.memory[m.pc as int], m.memory[m.pc + 1]);
}

/// The same `Dxyn` twice in a row, with neither position register the flag
/// register, leaves the framebuffer as it was; the second draw reports a
/// collision exactly when the first one lit a cell.
pub proof fn law_draw_twice_restores(m: Machine, x: int, y: int, n: int, random: u8)
    requires
        m.well_formed(),
        0 <= x < FLAG,
        0 <= y < FLAG,
        0 <= n < 16,
        m.pc + 3 < MEMORY_SIZE,
        m.index + n <= MEMORY_SIZE,
        m.memory[m.pc as int] == 0xD0 + x,
        m.memory[m.pc + 1] == y * 16 + n,
        m.memory[m.pc + 2] == m.memory[m.pc as int],
        m.memory[m.pc + 3] == m.memory[m.pc + 1],
    ensures
        stepped(m, random) is Ok,
        stepped(stepped(m, random)->Ok_0, random) is Ok,
        ({
            let after = stepped(stepped(m, random)->Ok_0, random)->Ok_0;
            let vx = m.registers[x];
            let vy = m.registers[y];
            &&& after.video == m.video
            &&& after.registers[FLAG as int] == 1 <==> exists|c: int|
                0 <= c < SCREEN_CELLS && #[trigger] sprite_covers(m.memory, m.index, n as u8, vx, vy, c)
                    && m.video[c] == 0
        }),
{
    lemma_decode(m.memory[m.pc as int], m.memory[m.pc + 1]);
    let m1 = stepped(m, random)->Ok_0;
    let m2 = stepped(m1, random)->Ok_0;
    let vx = m.registers[x];
    let vy = m.registers[y];
    let h = n as u8;
    assert(m1.memory == m.memory);
    assert(m1.registers[x] == vx);
    assert(m1.registers[y] == vy);
    assert(m1.pc == m.pc + 2);
    assert(word_at(m1.memory, m1.pc as int) == word_at(m.memory, m.pc as int));
    assert(m2.video =~= m.video);
    if m2.registers[FLAG as int] == 1 {
        assert(sprite_collides(m.memory, m.index, h, vx, vy, m1.video));
        let c = choose|c: int|
            0 <= c < SCREEN_CELLS && #[trigger] sprite_covers(m.memory, m.index, h, vx, vy, c)
                && m1.video[c] == LIT;
        assert(m.video[c] == 0);
    }
    if exists|c: int|
        0 <= c < SCREEN_CELLS && #[trigger] sprite_covers(m.memory, m.index, h, vx, vy, c)
            && m.video[c] == 0 {
        let c = choose|c: int|
            0 <= c < SCREEN_CELLS && #[trigger] sprite_covers(m.memory, m.index, h, vx, vy, c)
                && m.video[c] == 0;
        assert(m1.video[c] == LIT);
        assert(sprite_collides(m.memory, m.index, h, vx, vy, m1.video));
    }
}

/// `2nnn` followed by the `00EE` at `nnn` brings the program counter back to
/// the instruction after the call, with the stack as it was.
pub proof fn law_call_then_return(m: Machine, nnn: int, random: u8)
    requires
        m.well_formed(),
        m.stack.len() < STACK_DEPTH,
        m.pc + 1 < MEMORY_SIZE,
        0 <= nnn,
        nnn + 1 < MEMORY_SIZE,
        m.memory[m.pc as int] == 0x20 + nnn / 256,
        m.memory[m.pc + 1] == nnn % 256,
        m.memory[nnn] == 0x00,
        m.memory[nnn + 1] == 0xEE,
    ensures
        stepped(m, random) is Ok,
        stepped(stepped(m, random)->Ok_0, random) is Ok,
        stepped(stepped(m, random)->Ok_0, random)->Ok_0.pc == m.pc + 2,
        stepped(stepped(m, random)->Ok_0, random)->Ok_0.stack == m.stack,
{
    lemma_decode(m.memory[m.pc as int], m.memory[m.pc + 1]);
    let m1 = stepped(m, random)->Ok_0;
    assert(m1.pc == nnn);
    assert(m1.memory == m.memory);
    lemma_decode(m.memory[nnn], m.memory[nnn + 1]);
    assert(m1.stack.drop_last() =~= m.stack);
}

/// `6xnn`, then `Fx15`, then `Fy07`: the delay timer and Vy both end up
/// holding `nn`.
pub proof fn law_delay_timer_round_trip(m: Machine, x: int, y: int, nn: u8, random: u8)
    requires
        m.well_formed(),
        0 <= x < 16,
        0 <= y < 16,
        m.pc + 5 < MEMORY_SIZE,
        m.memory[m.pc as int] == 0x60 + x,
        m.memory[m.pc + 1] == nn,
        m.memory[m.pc + 2] == 0xF0 + x,
        m.memory[m.pc + 3] == 0x15,
        m.memory[m.pc + 4] == 0xF0 + y,
        m.memory[m.pc + 5] == 0x07,
    ensures
        stepped(m, random) is Ok,
        stepped(stepped(m, random)->Ok_0, random) is Ok,
        stepped(stepped(stepped(m, random)->Ok_0, random)->Ok_0, random) is Ok,
        ({
            let after = stepped(stepped(stepped(m, random)->Ok_0, random)->Ok_0, random)->Ok_0;
            &&& after.delay_timer == nn
            &&& after.registers[y] == nn
        }),
{
    lemma_decode(m.memory[m.pc as int], m.memory[m.pc + 1]);
    lemma_decode(m.memory[m.pc + 2], m.memory[m.pc + 3]);
    lemma_decode(m.memory[m.pc + 4], m.memory[m.pc + 5]);
    let m1 = stepped(m, random)->Ok_0;
    assert(m1.memory == m.memory && m1.pc == m.pc + 2);
    let m2 = stepped(m1, random)->Ok_0;
    assert(m2.memory == m.memory && m2.pc == m.pc + 4);
}

/// With no key pressed, every key-free stretch of the keypad from `from` on
/// has no lowest pressed key.
proof fn lemma_none_pressed(keypad: Seq<bool>, from: int)
    requires
        keypad.len() == KEY_COUNT,
        0 <= from,
        forall|k: int| from <= k < KEY_COUNT ==> !#[trigger] keypad[k],
    ensures
        lowest_pressed(keypad, from) == KEY_COUNT,
    decreases KEY_COUNT - from,
{
    if from < KEY_COUNT {
        lemma_none_pressed(keypad, from + 1);
    }
}

/// The lowest pressed key is pressed, and no key below it is.
proof fn lemma_lowest_pressed(keypad: Seq<bool>, from: int)
    requires
        keypad.len() == KEY_COUNT,
        0 <= from <= KEY_COUNT,
    ensures
        from <= lowest_pressed(keypad, from) <= KEY_COUNT,
        lowest_pressed(keypad, from) < KEY_COUNT ==> keypad[lowest_pressed(keypad, from)],
        forall|k: int| from <= k < lowest_pressed(keypad, from) ==> !#[trigger] keypad[k],
    decreases KEY_COUNT - from,
{
    if from < KEY_COUNT {
        lemma_lowest_pressed(keypad, from + 1);
    }
}

/// `Fx0A` with no key pressed leaves the whole machine unchanged, so that it
/// runs again on the next cycle; with a key pressed it stores the lowest
/// pressed key in Vx and moves on to the next instruction.
pub proof fn law_wait_for_key(m: Machine, x: int, random: u8)
    requires
        m.well_formed(),
        0 <= x < 16,
        m.pc + 1 < MEMORY_SIZE,
        m.memory[m.pc as int] == 0xF0 + x,
        m.memory[m.pc + 1] == 0x0A,
    ensures
        (forall|k: int| 0 <= k < KEY_COUNT ==> !#[trigger] m.keypad[k]) ==> stepped(m, random)
            == Ok::<Machine, crate::error::Chip8Error>(m),
        (exists|k: int| 0 <= k < KEY_COUNT && #[trigger] m.keypad[k]) ==> {
            let after = stepped(m, random)->Ok_0;
            let key = after.registers[x] as int;
            &&& stepped(m, random) is Ok
            &&& after.pc == m.pc + 2
            &&& 0 <= key < KEY_COUNT
            &&& m.keypad[key]
            &&& forall|k: int| 0 <= k < key ==> !#[trigger] m.keypad[k]
        },
{
    lemma_decode(m.memory[m.pc as int], m.memory[m.pc + 1]);
    lemma_lowest_pressed(m.keypad, 0);
    if forall|k: int| 0 <= k < KEY_COUNT ==> !#[trigger] m.keypad[k] {
        lemma_none_pressed(m.keypad, 0);
        let after = stepped(m, random)->Ok_0;
        assert(after.registers =~= m.registers);
    }
}

} // verus!
