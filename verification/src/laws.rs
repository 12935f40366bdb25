use crate::model::{
    any_pressed, collides, first_pressed, flag, in_sprite, is_first_pressed, is_pixel, sprite_hit,
    sprite_cols, sprite_pixel, sprite_rows, sprite_x, sprite_y, toggled, Chip8State, MEMORY_SIZE,
    OFF_COLOR, ON_COLOR,
};
use vstd::prelude::*;

verus! {

/// Whether the `Dxyn` sprite turns on some pixel that was off.
pub open spec fn lights(s: Chip8State, x: u8, y: u8, n: u8) -> bool {
    exists|p: int|
        0 <= p < s.screen.len() && in_sprite(
            p,
            sprite_x(s, x),
            sprite_y(s, y),
            sprite_rows(s, y, n),
            sprite_cols(s, x),
        ) && sprite_pixel(s.memory, s.i as int, sprite_x(s, x), sprite_y(s, y), p) && #[trigger] s.screen[p]
            == OFF_COLOR
}

/// Drawing a sprite a second time at the same place erases it: the screen is back to what
/// it was, and the second draw reports a collision exactly when the first one lit a pixel.
/// (Neither coordinate may be read from `VF`, which the first draw overwrites.)
pub proof fn lemma_redraw_erases(s: Chip8State, x: u8, y: u8, n: u8)
    requires
        s.wf(),
        x < 15,
        y < 15,
    ensures
        s.draw(x, y, n).draw(x, y, n).screen == s.screen,
        s.draw(x, y, n).draw(x, y, n).reg[15] == flag(lights(s, x, y, n)),
{
    let t = s.draw(x, y, n);
    assert(sprite_x(t, x) == sprite_x(s, x));
    assert(sprite_y(t, y) == sprite_y(s, y));
    assert(t.draw(x, y, n).screen =~= s.screen) by {
        assert forall|p: int| 0 <= p < s.screen.len() implies #[trigger] t.draw(x, y, n).screen[p]
            == s.screen[p] by {
            assert(is_pixel(s.screen[p]));
        }
    }
    if collides(t, x, y, n) {
        let p = choose|p: int| sprite_hit(t, x, y, n, p);
        assert(s.screen[p] == OFF_COLOR);
        assert(lights(s, x, y, n));
    }
    if lights(s, x, y, n) {
        let p = choose|p: int|
            0 <= p < s.screen.len() && in_sprite(
                p,
                sprite_x(s, x),
                sprite_y(s, y),
                sprite_rows(s, y, n),
                sprite_cols(s, x),
            ) && sprite_pixel(s.memory, s.i as int, sprite_x(s, x), sprite_y(s, y), p)
                && #[trigger] s.screen[p] == OFF_COLOR;
        assert(sprite_hit(t, x, y, n, p));
    }
}

/// A draw consumes the shown frame: the same `Dxyn` run again before the next frame
/// changes nothing.
pub proof fn lemma_draw_waits_for_frame(s: Chip8State, x: u8, y: u8, n: u8, r1: u8, r2: u8)
    requires
        s.wf(),
        s.can_step(),
        s.nibbles() == (0xDu8, x, y, n),
    ensures
        !s.step(r1).vblank,
        ({
            let t = Chip8State { pc: s.pc, ..s.step(r1) };
            t.step(r2) == t
        }),
{
    let t = Chip8State { pc: s.pc, ..s.step(r1) };
    assert(t.memory == s.memory);
    assert(t.nibbles() == s.nibbles());
}

/// A subroutine that returns at once brings execution back to the instruction after the
/// call, with the stack pointer where it was.
pub proof fn lemma_call_then_return(s: Chip8State, r1: u8, r2: u8)
    requires
        s.wf(),
        s.can_step(),
        s.nibbles().0 == 0x2,
        ({
            let t = s.step(r1);
            &&& t.pc + 1 < MEMORY_SIZE
            &&& t.memory[t.pc as int] == 0x00
            &&& t.memory[t.pc + 1] == 0xEE
        }),
    ensures
        s.step(r1).step(r2) == (Chip8State {
            stack: s.stack.update(s.sp as int, s.pc),
            ..s.advanced()
        }),
{
    let t = s.step(r1);
    assert(t.nibbles() == (0x0u8, 0x0u8, 0xEu8, 0xEu8));
}

/// Storing `V0..=Vx` at `I` and loading them back from the same address gives the
/// registers back.
pub proof fn lemma_store_then_load(s: Chip8State, x: u8)
    requires
        s.wf(),
        x < 16,
        s.i + x < MEMORY_SIZE,
    ensures
        (Chip8State { i: s.i, ..s.store_regs(x) }).load_regs(x).reg == s.reg,
{
    let t = Chip8State { i: s.i, ..s.store_regs(x) };
    assert(t.load_regs(x).reg =~= s.reg);
}

/// `Fx33` writes three decimal digits that spell `Vx`.
pub proof fn lemma_bcd_digits(s: Chip8State, x: u8)
    requires
        s.wf(),
        x < 16,
        s.i + 2 < MEMORY_SIZE,
    ensures
        ({
            let m = s.bcd(x).memory;
            let i = s.i as int;
            &&& m[i] < 10 && m[i + 1] < 10 && m[i + 2] < 10
            &&& 100 * m[i] + 10 * m[i + 1] + m[i + 2] == s.vx(x)
        }),
{
}

/// Only `Cxkk` depends on the random byte; every other instruction is deterministic.
pub proof fn lemma_only_rnd_is_random(s: Chip8State, r1: u8, r2: u8)
    requires
        s.nibbles().0 != 0xC,
    ensures
        s.step(r1) == s.step(r2),
{
}

/// `8xy4` keeps the whole sum: the new `Vx` plus 256 times the carry in `VF`.
pub proof fn lemma_add_keeps_carry(s: Chip8State, x: u8, y: u8, r: u8)
    requires
        s.wf(),
        s.nibbles() == (0x8u8, x, y, 0x4u8),
        x < 15,
    ensures
        s.step(r).reg[x as int] + 256 * s.step(r).reg[15] == s.vx(x) + s.vx(y),
{
}

/// `Fx0A` waits: with no key down nothing changes; otherwise `Vx` names the
/// lowest-numbered key that is down.
pub proof fn lemma_wait_key(s: Chip8State, x: u8, r: u8)
    requires
        s.wf(),
        s.nibbles() == (0xFu8, x, 0x0u8, 0xAu8),
        s.keys.len() <= 256,
    ensures
        !any_pressed(s.keys) ==> s.step(r) == s,
        any_pressed(s.keys) ==> {
            let k = s.step(r).reg[x as int] as int;
            &&& s.keys[k]
            &&& forall|j: int| 0 <= j < k ==> !s.keys[j]
        },
{
    if any_pressed(s.keys) {
        let w = choose|k: int| 0 <= k < s.keys.len() && s.keys[k];
        lemma_first_exists(s.keys, w);
        assert(is_first_pressed(s.keys, first_pressed(s.keys)));
    }
}

/// Some key is the lowest-numbered one down, as soon as any key is down.
proof fn lemma_first_exists(keys: Seq<bool>, w: int)
    requires
        0 <= w < keys.len(),
        keys[w],
    ensures
        exists|k: int| is_first_pressed(keys, k),
    decreases w,
{
    if forall|j: int| 0 <= j < w ==> !keys[j] {
        assert(is_first_pressed(keys, w));
    } else {
        let j = choose|j: int| 0 <= j < w && keys[j];
        lemma_first_exists(keys, j);
    }
}

/// Every instruction the machine can execute keeps it well formed.
pub proof fn lemma_step_keeps_wf(s: Chip8State, r: u8)
    requires
        s.wf(),
        s.can_step(),
    ensures
        s.step(r).wf(),
{
    let t = s.step(r);
    assert forall|p: int| 0 <= p < t.screen.len() implies is_pixel(
        #[trigger] t.screen[p],
    ) by {
        assert(is_pixel(s.screen[p]));
        assert(is_pixel(toggled(s.screen[p])));
    }
}

/// Whether the two bytes at `pc` are `b0 b1`.
pub open spec fn fetches(s: Chip8State, b0: int, b1: int) -> bool {
    &&& s.pc + 1 < s.memory.len()
    &&& s.memory[s.pc as int] == b0
    &&& s.memory[s.pc + 1] == b1
}

/// `7xkk` keeps the whole sum: the new `Vx` plus 256 times `VF` is `Vx + kk`, and
/// `VF` is 1 exactly when the sum does not fit in a byte.
pub proof fn lemma_add_immediate(s: Chip8State, x: u8, kk: u8, r: u8)
    requires
        s.wf(),
        x < 15,
        fetches(s, 0x70 + x, kk as int),
    ensures
        ({
            let t = s.step(r);
            &&& t.reg[15] < 2
            &&& t.reg[x as int] + 256 * t.reg[15] == s.reg[x as int] + kk
            &&& t.pc == s.pc + 2
        }),
{
}

/// `8xy5` subtracts with a not-borrow flag: the new `Vx` is `Vx - Vy`, plus 256 when
/// `VF` is 0; `VF` is 1 exactly when `Vx >= Vy`.
pub proof fn lemma_sub_not_borrow(s: Chip8State, x: u8, y: u8, r: u8)
    requires
        s.wf(),
        x < 15,
        y < 16,
        fetches(s, 0x80 + x, y * 16 + 5),
    ensures
        ({
            let t = s.step(r);
            &&& t.reg[15] < 2
            &&& t.reg[x as int] == s.reg[x as int] - s.reg[y as int] + 256 * (1 - t.reg[15])
            &&& (t.reg[15] == 1) == (s.reg[x as int] >= s.reg[y as int])
            &&& t.pc == s.pc + 2
        }),
{
}

/// `8xy7` subtracts the other way: the new `Vx` is `Vy - Vx`, plus 256 when `VF` is 0;
/// `VF` is 1 exactly when `Vy >= Vx`.
pub proof fn lemma_subn_not_borrow(s: Chip8State, x: u8, y: u8, r: u8)
    requires
        s.wf(),
        x < 15,
        y < 16,
        fetches(s, 0x80 + x, y * 16 + 7),
    ensures
        ({
            let t = s.step(r);
            &&& t.reg[15] < 2
            &&& t.reg[x as int] == s.reg[y as int] - s.reg[x as int] + 256 * (1 - t.reg[15])
            &&& (t.reg[15] == 1) == (s.reg[y as int] >= s.reg[x as int])
            &&& t.pc == s.pc + 2
        }),
{
}

/// `8xy4`, stated on the fetched bytes: the new `Vx` plus 256 times `VF` is `Vx + Vy`.
pub proof fn lemma_add_registers(s: Chip8State, x: u8, y: u8, r: u8)
    requires
        s.wf(),
        x < 15,
        y < 16,
        fetches(s, 0x80 + x, y * 16 + 4),
    ensures
        ({
            let t = s.step(r);
            &&& t.reg[15] < 2
            &&& t.reg[x as int] + 256 * t.reg[15] == s.reg[x as int] + s.reg[y as int]
            &&& t.pc == s.pc + 2
        }),
{
}

/// `8xy6` shifts `Vy` right by one: twice the new `Vx`, plus `VF`, is `Vy`; the lost
/// low bit is `VF`.
pub proof fn lemma_shift_right(s: Chip8State, x: u8, y: u8, r: u8)
    requires
        s.wf(),
        x < 15,
        y < 16,
        fetches(s, 0x80 + x, y * 16 + 6),
    ensures
        ({
            let t = s.step(r);
            &&& t.reg[15] < 2
            &&& 2 * t.reg[x as int] + t.reg[15] == s.reg[y as int]
            &&& t.pc == s.pc + 2
        }),
{
}

/// `8xyE` shifts `Vy` left by one: the new `Vx` plus 256 times `VF` is twice `Vy`; the
/// lost high bit is `VF`.
pub proof fn lemma_shift_left(s: Chip8State, x: u8, y: u8, r: u8)
    requires
        s.wf(),
        x < 15,
        y < 16,
        fetches(s, 0x80 + x, y * 16 + 0xE),
    ensures
        ({
            let t = s.step(r);
            &&& t.reg[15] < 2
            &&& t.reg[x as int] + 256 * t.reg[15] == 2 * s.reg[y as int]
            &&& t.pc == s.pc + 2
        }),
{
}

/// `8xy1`, `8xy2`, `8xy3` combine `Vx` and `Vy` bitwise (OR, AND, XOR) and clear `VF`.
pub proof fn lemma_logic(s: Chip8State, x: u8, y: u8, op: u8, r: u8)
    requires
        s.wf(),
        x < 15,
        y < 16,
        1 <= op <= 3,
        fetches(s, 0x80 + x, y * 16 + op),
    ensures
        ({
            let t = s.step(r);
            let vx = s.reg[x as int];
            let vy = s.reg[y as int];
            &&& t.reg[15] == 0
            &&& op == 1 ==> t.reg[x as int] == vx | vy
            &&& op == 2 ==> t.reg[x as int] == vx & vy
            &&& op == 3 ==> t.reg[x as int] == vx ^ vy
            &&& t.pc == s.pc + 2
        }),
{
}

/// `3xkk` and `4xkk` from the same state: the first skips exactly when `Vx == kk`, the
/// second exactly when it does not, so exactly one of them skips.
pub proof fn lemma_skip_on_immediate(s: Chip8State, x: u8, kk: u8, r: u8)
    requires
        s.wf(),
        x < 16,
        s.pc + 1 < MEMORY_SIZE,
    ensures
        ({
            let m3 = Chip8State { memory: s.memory.update(s.pc as int, (0x30 + x) as u8).update(s.pc + 1, kk), ..s };
            let m4 = Chip8State { memory: s.memory.update(s.pc as int, (0x40 + x) as u8).update(s.pc + 1, kk), ..s };
            &&& m3.step(r).pc == s.pc + if s.reg[x as int] == kk { 4int } else { 2int }
            &&& m4.step(r).pc == s.pc + if s.reg[x as int] != kk { 4int } else { 2int }
            &&& (m3.step(r).pc == s.pc + 4) != (m4.step(r).pc == s.pc + 4)
        }),
{
    let m3 = Chip8State { memory: s.memory.update(s.pc as int, (0x30 + x) as u8).update(s.pc + 1, kk), ..s };
    let m4 = Chip8State { memory: s.memory.update(s.pc as int, (0x40 + x) as u8).update(s.pc + 1, kk), ..s };
    assert(m3.opcode_hi() == 0x30 + x && m3.opcode_lo() == kk);
    assert(m4.opcode_hi() == 0x40 + x && m4.opcode_lo() == kk);
}

/// `5xy0` skips exactly when `Vx == Vy` (so `5xx0` always skips); `9xy0` from the same
/// state skips exactly when `5xy0` does not.
pub proof fn lemma_skip_on_registers(s: Chip8State, x: u8, y: u8, r: u8)
    requires
        s.wf(),
        x < 16,
        y < 16,
        s.pc + 1 < MEMORY_SIZE,
    ensures
        ({
            let m5 = Chip8State { memory: s.memory.update(s.pc as int, (0x50 + x) as u8).update(s.pc + 1, (y * 16) as u8), ..s };
            let m9 = Chip8State { memory: s.memory.update(s.pc as int, (0x90 + x) as u8).update(s.pc + 1, (y * 16) as u8), ..s };
            &&& m5.step(r).pc == s.pc + if s.reg[x as int] == s.reg[y as int] { 4int } else { 2int }
            &&& m9.step(r).pc == s.pc + if s.reg[x as int] != s.reg[y as int] { 4int } else { 2int }
            &&& x == y ==> m5.step(r).pc == s.pc + 4
        }),
{
    let m5 = Chip8State { memory: s.memory.update(s.pc as int, (0x50 + x) as u8).update(s.pc + 1, (y * 16) as u8), ..s };
    let m9 = Chip8State { memory: s.memory.update(s.pc as int, (0x90 + x) as u8).update(s.pc + 1, (y * 16) as u8), ..s };
    assert(m5.opcode_hi() == 0x50 + x && m5.opcode_lo() == y * 16);
    assert(m9.opcode_hi() == 0x90 + x && m9.opcode_lo() == y * 16);
}

/// `Ex9E` skips exactly when key `Vx` is down and `ExA1` exactly when it is up, so
/// from one state exactly one of them skips; no other key matters.
pub proof fn lemma_key_skips(s: Chip8State, keys2: Seq<bool>, x: u8, r: u8)
    requires
        s.wf(),
        x < 16,
        s.pc + 1 < MEMORY_SIZE,
        s.reg[x as int] < s.keys.len(),
        keys2.len() == s.keys.len(),
        keys2[s.reg[x as int] as int] == s.keys[s.reg[x as int] as int],
    ensures
        ({
            let e9 = Chip8State { memory: s.memory.update(s.pc as int, (0xE0 + x) as u8).update(s.pc + 1, 0x9E), ..s };
            let ea = Chip8State { memory: s.memory.update(s.pc as int, (0xE0 + x) as u8).update(s.pc + 1, 0xA1), ..s };
            let down = s.keys[s.reg[x as int] as int];
            &&& e9.step(r).pc == s.pc + if down { 4int } else { 2int }
            &&& ea.step(r).pc == s.pc + if down { 2int } else { 4int }
            &&& (Chip8State { keys: keys2, ..e9 }).step(r).pc == e9.step(r).pc
            &&& (Chip8State { keys: keys2, ..ea }).step(r).pc == ea.step(r).pc
        }),
{
    let e9 = Chip8State { memory: s.memory.update(s.pc as int, (0xE0 + x) as u8).update(s.pc + 1, 0x9E), ..s };
    let ea = Chip8State { memory: s.memory.update(s.pc as int, (0xE0 + x) as u8).update(s.pc + 1, 0xA1), ..s };
    assert(e9.opcode_hi() == 0xE0 + x && e9.opcode_lo() == 0x9E);
    assert(ea.opcode_hi() == 0xE0 + x && ea.opcode_lo() == 0xA1);
    let f9 = Chip8State { keys: keys2, ..e9 };
    let fa = Chip8State { keys: keys2, ..ea };
    assert(f9.opcode_hi() == 0xE0 + x && f9.opcode_lo() == 0x9E);
    assert(fa.opcode_hi() == 0xE0 + x && fa.opcode_lo() == 0xA1);
}

/// `Cxkk` masks the byte it is given into `Vx`, for every register `x`: only the bits
/// of `kk` can be set, and within them `Vx` is the given byte.
pub proof fn lemma_random_masked(s: Chip8State, x: u8, kk: u8, r: u8)
    requires
        s.wf(),
        x < 16,
        fetches(s, 0xC0 + x, kk as int),
    ensures
        ({
            let t = s.step(r);
            &&& t.reg[x as int] & kk == r & kk
            &&& t.reg[x as int] & !kk == 0
            &&& t.pc == s.pc + 2
        }),
{
    let t = s.step(r);
    assert(t.reg[x as int] == kk & r);
    assert((kk & r) & kk == r & kk) by (bit_vector);
    assert((kk & r) & !kk == 0) by (bit_vector);
}

/// `1nnn` jumps to `nnn`; `Bnnn` jumps to `nnn + V0`; `Annn` sets `I` to `nnn`.
pub proof fn lemma_jumps_and_index(s: Chip8State, n1: u8, b1: u8, r: u8)
    requires
        s.wf(),
        n1 < 16,
    ensures
        fetches(s, 0x10 + n1, b1 as int) ==> s.step(r).pc == n1 * 256 + b1,
        fetches(s, 0xB0 + n1, b1 as int) ==> s.step(r).pc == n1 * 256 + b1 + s.reg[0],
        fetches(s, 0xA0 + n1, b1 as int) ==> s.step(r).i == n1 * 256 + b1 && s.step(r).pc
            == s.pc + 2,
{
}

/// `2nnn` pushes the address of the call and jumps to `nnn`.
pub proof fn lemma_call_pushes(s: Chip8State, n1: u8, b1: u8, r: u8)
    requires
        s.wf(),
        n1 < 16,
        fetches(s, 0x20 + n1, b1 as int),
        s.sp < s.stack.len(),
    ensures
        s.step(r).pc == n1 * 256 + b1,
        s.step(r).sp == s.sp + 1,
        s.step(r).stack[s.sp as int] == s.pc,
        forall|k: int| 0 <= k < s.stack.len() && k != s.sp ==> s.step(r).stack[k] == s.stack[k],
{
}

/// `6xkk` puts `kk` in `Vx`, `8xy0` copies `Vy` into `Vx`; no other register changes.
pub proof fn lemma_loads(s: Chip8State, x: u8, b1: u8, r: u8)
    requires
        s.wf(),
        x < 16,
    ensures
        fetches(s, 0x60 + x, b1 as int) ==> s.step(r).reg[x as int] == b1,
        fetches(s, 0x60 + x, b1 as int) ==> forall|k: int|
            0 <= k < 16 && k != x ==> s.step(r).reg[k] == s.reg[k],
        fetches(s, 0x80 + x, b1 as int) && b1 % 16 == 0 ==> s.step(r).reg[x as int] == s.reg[(
        b1 / 16) as int],
        fetches(s, 0x80 + x, b1 as int) && b1 % 16 == 0 ==> forall|k: int|
            0 <= k < 16 && k != x ==> s.step(r).reg[k] == s.reg[k],
{
}

/// `Fx15` sets the delay timer from `Vx`, `Fx07` reads it into `Vx`, `Fx1E` adds `Vx` to
/// `I`, and `Fx29` points `I` at the five-byte font glyph of digit `Vx`.
pub proof fn lemma_timer_and_index_ops(s: Chip8State, x: u8, r: u8)
    requires
        s.wf(),
        x < 16,
    ensures
        fetches(s, 0xF0 + x, 0x15) ==> s.step(r).delay == s.reg[x as int] && s.step(r).reg
            == s.reg,
        fetches(s, 0xF0 + x, 0x07) ==> s.step(r).reg[x as int] == s.delay && s.step(r).delay
            == s.delay,
        fetches(s, 0xF0 + x, 0x1E) && s.i + s.reg[x as int] <= u16::MAX ==> s.step(r).i == s.i
            + s.reg[x as int],
        fetches(s, 0xF0 + x, 0x29) ==> s.step(r).i == 5 * s.reg[x as int],
{
}

/// `Fx33`, run as an instruction, writes the hundreds, tens and ones digits of `Vx`
/// at `I`, `I + 1`, `I + 2`, and nothing else in memory.
pub proof fn lemma_bcd_instruction(s: Chip8State, x: u8, r: u8)
    requires
        s.wf(),
        x < 16,
        fetches(s, 0xF0 + x, 0x33),
        s.i + 2 < MEMORY_SIZE,
    ensures
        ({
            let m = s.step(r).memory;
            let i = s.i as int;
            &&& m[i] < 10 && m[i + 1] < 10 && m[i + 2] < 10
            &&& 100 * m[i] + 10 * m[i + 1] + m[i + 2] == s.reg[x as int]
            &&& forall|k: int| 0 <= k < m.len() && (k < i || k > i + 2) ==> m[k] == s.memory[k]
            &&& m.len() == s.memory.len()
        }),
{
}

/// `Fx55` writes `V0..=Vx` to `I..=I + x` and nothing else, and moves `I` past them;
/// `Fx65` reads `V0..=Vx` back from there, leaving the other registers alone.
pub proof fn lemma_store_load_instructions(s: Chip8State, x: u8, r: u8)
    requires
        s.wf(),
        x < 16,
        s.i + x < MEMORY_SIZE,
    ensures
        fetches(s, 0xF0 + x, 0x55) ==> {
            let t = s.step(r);
            &&& t.i == s.i + x + 1
            &&& forall|k: int| 0 <= k <= x ==> t.memory[s.i + k] == s.reg[k]
            &&& forall|m: int|
                0 <= m < s.memory.len() && (m < s.i || m > s.i + x) ==> t.memory[m]
                    == s.memory[m]
        },
        fetches(s, 0xF0 + x, 0x65) ==> {
            let t = s.step(r);
            &&& t.i == s.i + x + 1
            &&& forall|k: int| 0 <= k <= x ==> t.reg[k] == s.memory[s.i + k]
            &&& forall|k: int| x < k < 16 ==> t.reg[k] == s.reg[k]
        },
{
}

/// `00E0` turns every pixel off.
pub proof fn lemma_clear(s: Chip8State, r: u8)
    requires
        s.wf(),
        fetches(s, 0x00, 0xE0),
    ensures
        forall|p: int| 0 <= p < s.screen.len() ==> s.step(r).screen[p] == OFF_COLOR,
        s.step(r).screen.len() == s.screen.len(),
        s.step(r).pc == s.pc + 2,
{
}

/// Bit `c` from the left of a sprite row, as a number.
pub open spec fn row_bit(row: u8, c: int) -> u8 {
    (row >> ((7 - c) as u8)) & 1
}

/// `Dxyn` with a frame shown: the pixel `c` columns right of and `a` rows below `(Vx, Vy)`
/// (wrapped onto the screen, and only while on it) flips exactly when bit `c` of sprite byte
/// `a` is set; every other pixel keeps its color; `VF` is 1 exactly when some lit pixel
/// flipped off. Without a frame shown nothing changes.
pub proof fn lemma_draw_instruction(s: Chip8State, x: u8, y: u8, n: u8, r: u8)
    requires
        s.wf(),
        x < 16,
        y < 16,
        n < 16,
        fetches(s, 0xD0 + x, y * 16 + n),
        s.i + n <= MEMORY_SIZE,
    ensures
        !s.vblank ==> s.step(r) == s,
        s.vblank ==> {
            let t = s.step(r);
            let x0 = s.reg[x as int] % 64;
            let y0 = s.reg[y as int] % 32;
            &&& t.screen.len() == s.screen.len()
            &&& forall|a: int, c: int|
                #![trigger s.memory[s.i + a], row_bit(s.memory[s.i + a], c)]
                0 <= a < n && 0 <= c < 8 && y0 + a < 32 && x0 + c < 64 ==> {
                    let p = (y0 + a) * 64 + x0 + c;
                    (t.screen[p] == ON_COLOR) == ((s.screen[p] == ON_COLOR) != (row_bit(
                        s.memory[s.i + a],
                        c,
                    ) == 1))
                }
            &&& forall|p: int|
                0 <= p < s.screen.len() && !(y0 <= p / 64 < y0 + n && x0 <= p % 64 < x0 + 8)
                    ==> #[trigger] t.screen[p] == s.screen[p]
            &&& t.reg[15] < 2
            &&& (t.reg[15] == 1) == (exists|a: int, c: int|
                #![trigger s.memory[s.i + a], row_bit(s.memory[s.i + a], c)]
                0 <= a < n && 0 <= c < 8 && y0 + a < 32 && x0 + c < 64 && row_bit(
                    s.memory[s.i + a],
                    c,
                ) == 1 && s.screen[(y0 + a) * 64 + x0 + c] == ON_COLOR)
            &&& !t.vblank
            &&& t.pc == s.pc + 2
        },
{
    if s.vblank {
        let t = s.step(r);
        let x0 = (s.reg[x as int] % 64) as int;
        let y0 = (s.reg[y as int] % 32) as int;
        assert(s.nibbles() == (0xDu8, x, y, n));
        assert(x0 == sprite_x(s, x) && y0 == sprite_y(s, y));
        assert forall|a: int, c: int|
            #![trigger s.memory[s.i + a], row_bit(s.memory[s.i + a], c)]
            0 <= a < n && 0 <= c < 8 && y0 + a < 32 && x0 + c < 64 implies {
                let p = (y0 + a) * 64 + x0 + c;
                &&& in_sprite(p, x0, y0, sprite_rows(s, y, n), sprite_cols(s, x))
                &&& sprite_pixel(s.memory, s.i as int, x0, y0, p) == (row_bit(
                    s.memory[s.i + a],
                    c,
                ) == 1)
                &&& 0 <= p < s.screen.len()
            } by {
            crate::chip8::lemma_cell(y0 + a, x0 + c);
            lemma_row_bit(s.memory[s.i + a], c as u8);
        }
        assert forall|p: int|
            0 <= p < s.screen.len() && !(y0 <= p / 64 < y0 + n && x0 <= p % 64 < x0 + 8)
                implies #[trigger] t.screen[p] == s.screen[p] by {
            assert(!in_sprite(p, x0, y0, sprite_rows(s, y, n), sprite_cols(s, x)));
        }
        assert forall|a: int, c: int|
            #![trigger s.memory[s.i + a], row_bit(s.memory[s.i + a], c)]
            0 <= a < n && 0 <= c < 8 && y0 + a < 32 && x0 + c < 64 implies {
                let p = (y0 + a) * 64 + x0 + c;
                (t.screen[p] == ON_COLOR) == ((s.screen[p] == ON_COLOR) != (row_bit(
                    s.memory[s.i + a],
                    c,
                ) == 1))
            } by {
            let p = (y0 + a) * 64 + x0 + c;
            crate::chip8::lemma_cell(y0 + a, x0 + c);
            lemma_row_bit(s.memory[s.i + a], c as u8);
            assert(is_pixel(s.screen[p]));
        }
        if t.reg[15] == 1 {
            assert(collides(s, x, y, n));
            let p = choose|p: int| sprite_hit(s, x, y, n, p);
            let a = p / 64 - y0;
            let c = p % 64 - x0;
            crate::chip8::lemma_cell(p / 64, p % 64);
            lemma_row_bit(s.memory[s.i + a], c as u8);
            assert((y0 + a) * 64 + x0 + c == p);
            assert(0 <= a < n && 0 <= c < 8 && y0 + a < 32 && x0 + c < 64 && row_bit(
                s.memory[s.i + a],
                c,
            ) == 1 && s.screen[(y0 + a) * 64 + x0 + c] == ON_COLOR);
        }
        if exists|a: int, c: int|
            #![trigger s.memory[s.i + a], row_bit(s.memory[s.i + a], c)]
            0 <= a < n && 0 <= c < 8 && y0 + a < 32 && x0 + c < 64 && row_bit(
                s.memory[s.i + a],
                c,
            ) == 1 && s.screen[(y0 + a) * 64 + x0 + c] == ON_COLOR {
            let (a, c) = choose|a: int, c: int|
                #![trigger s.memory[s.i + a], row_bit(s.memory[s.i + a], c)]
                0 <= a < n && 0 <= c < 8 && y0 + a < 32 && x0 + c < 64 && row_bit(
                    s.memory[s.i + a],
                    c,
                ) == 1 && s.screen[(y0 + a) * 64 + x0 + c] == ON_COLOR;
            crate::chip8::lemma_cell(y0 + a, x0 + c);
            lemma_row_bit(s.memory[s.i + a], c as u8);
            assert(sprite_hit(s, x, y, n, (y0 + a) * 64 + x0 + c));
        }
    }
}

proof fn lemma_row_bit(row: u8, c: u8)
    requires
        c < 8,
    ensures
        (row & (0x80u8 >> c) != 0) == (row_bit(row, c as int) == 1),
        row_bit(row, c as int) < 2,
{
    assert((row & (0x80u8 >> c) != 0) == ((row >> ((7 - c) as u8)) & 1 == 1)) by (bit_vector)
        requires
            c < 8,
    ;
    assert((row >> ((7 - c) as u8)) & 1 < 2) by (bit_vector);
}

} // verus!
