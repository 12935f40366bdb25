use vstd::prelude::*;

verus! {

pub const WIDTH: usize = 64;
pub const HEIGHT: usize = 32;
pub const MEMORY_SIZE: usize = 4096;
pub const STACK_SIZE: usize = 16;
pub const REGISTER_COUNT: usize = 16;
pub const KEY_COUNT: usize = 16;
pub const OFF_COLOR: u32 = 0xFF225522;
pub const ON_COLOR: u32 = 0xFF22AA22;
pub const PROGRAM_START: u16 = 0x200;

/// The abstract state of the machine: everything an instruction can read or write.
pub struct Chip8State {
    pub keys: Seq<bool>,
    pub vblank: bool,
    pub screen: Seq<u32>,
    pub memory: Seq<u8>,
    pub stack: Seq<u16>,
    pub reg: Seq<u8>,
    pub i: u16,
    pub delay: u8,
    pub pc: u16,
    pub sp: u8,
}

pub open spec fn is_pixel(c: u32) -> bool {
    c == OFF_COLOR || c == ON_COLOR
}

impl Chip8State {
    /// Sizes fixed by the hardware, and a screen that only holds the two colors.
    pub open spec fn wf(self) -> bool {
        &&& self.memory.len() == MEMORY_SIZE
        &&& self.screen.len() == WIDTH * HEIGHT
        &&& self.stack.len() == STACK_SIZE
        &&& self.reg.len() == REGISTER_COUNT
        &&& forall|p: int| 0 <= p < self.screen.len() ==> is_pixel(#[trigger] self.screen[p])
    }
}


/// High nibble of a byte.
pub open spec fn hi(b: u8) -> u8 {
    b / 16
}

/// Low nibble of a byte.
pub open spec fn lo(b: u8) -> u8 {
    b % 16
}

/// The 12-bit address `n1 n2 n3` spelled by three nibbles.
pub open spec fn address(n1: u8, n2: u8, n3: u8) -> u16 {
    (n1 * 256 + n2 * 16 + n3) as u16
}

/// The color a pixel takes when a sprite pixel is drawn over it.
pub open spec fn toggled(c: u32) -> u32 {
    if c == ON_COLOR {
        OFF_COLOR
    } else {
        ON_COLOR
    }
}

/// Whether bit `col` (0 is the leftmost) of a sprite row is set.
pub open spec fn sprite_bit(row: u8, col: int) -> bool {
    row & (0x80u8 >> (col as u8)) != 0
}

/// Whether screen cell `p` lies in the `rows` x `cols` rectangle whose top-left corner is `(x0, y0)`.
pub open spec fn in_sprite(p: int, x0: int, y0: int, rows: int, cols: int) -> bool {
    let px = p % (WIDTH as int);
    let py = p / (WIDTH as int);
    &&& y0 <= py < y0 + rows
    &&& x0 <= px < x0 + cols
}

/// Whether the sprite read from `memory` at `i`, placed at `(x0, y0)`, has its bit set over cell `p`.
pub open spec fn sprite_pixel(memory: Seq<u8>, i: int, x0: int, y0: int, p: int) -> bool {
    sprite_bit(memory[i + (p / (WIDTH as int) - y0)], p % (WIDTH as int) - x0)
}

pub open spec fn min(a: int, b: int) -> int {
    if a < b {
        a
    } else {
        b
    }
}

/// Column of the sprite's left edge for `Dxyn`: `Vx` wrapped onto the screen.
pub open spec fn sprite_x(s: Chip8State, x: u8) -> int {
    (s.reg[x as int] as int) % (WIDTH as int)
}

/// Row of the sprite's top edge for `Dxyn`: `Vy` wrapped onto the screen.
pub open spec fn sprite_y(s: Chip8State, y: u8) -> int {
    (s.reg[y as int] as int) % (HEIGHT as int)
}

/// Rows of an `n`-row sprite that fit on the screen (the sprite is clipped, not wrapped).
pub open spec fn sprite_rows(s: Chip8State, y: u8, n: u8) -> int {
    min(n as int, HEIGHT - sprite_y(s, y))
}

/// Columns of the sprite that fit on the screen.
pub open spec fn sprite_cols(s: Chip8State, x: u8) -> int {
    min(8, WIDTH - sprite_x(s, x))
}

/// Whether drawing the `Dxyn` sprite turns off cell `p`.
pub open spec fn sprite_hit(s: Chip8State, x: u8, y: u8, n: u8, p: int) -> bool {
    &&& 0 <= p < s.screen.len()
    &&& in_sprite(p, sprite_x(s, x), sprite_y(s, y), sprite_rows(s, y, n), sprite_cols(s, x))
    &&& sprite_pixel(s.memory, s.i as int, sprite_x(s, x), sprite_y(s, y), p)
    &&& s.screen[p] == ON_COLOR
}

/// The screen after the `Dxyn` sprite is XOR-ed onto it.
pub open spec fn drawn_screen(s: Chip8State, x: u8, y: u8, n: u8) -> Seq<u32> {
    Seq::new(
        s.screen.len(),
        |p: int|
            if in_sprite(p, sprite_x(s, x), sprite_y(s, y), sprite_rows(s, y, n), sprite_cols(s, x))
                && sprite_pixel(s.memory, s.i as int, sprite_x(s, x), sprite_y(s, y), p) {
                toggled(s.screen[p])
            } else {
                s.screen[p]
            },
    )
}

/// Whether the `Dxyn` sprite turns off some lit pixel.
pub open spec fn collides(s: Chip8State, x: u8, y: u8, n: u8) -> bool {
    exists|p: int| sprite_hit(s, x, y, n, p)
}

pub open spec fn flag(b: bool) -> u8 {
    if b {
        1
    } else {
        0
    }
}

/// Whether `k` is the lowest-numbered key that is down.
pub open spec fn is_first_pressed(keys: Seq<bool>, k: int) -> bool {
    &&& 0 <= k < keys.len()
    &&& keys[k]
    &&& forall|j: int| 0 <= j < k ==> !keys[j]
}

pub open spec fn any_pressed(keys: Seq<bool>) -> bool {
    exists|k: int| 0 <= k < keys.len() && keys[k]
}

/// The lowest-numbered key that is down (meaningful when `any_pressed`).
pub open spec fn first_pressed(keys: Seq<bool>) -> int {
    choose|k: int| is_first_pressed(keys, k)
}

impl Chip8State {
    pub open spec fn opcode_hi(self) -> u8 {
        self.memory[self.pc as int]
    }

    pub open spec fn opcode_lo(self) -> u8 {
        self.memory[self.pc as int + 1]
    }

    /// The four nibbles of the instruction at `pc`.
    pub open spec fn nibbles(self) -> (u8, u8, u8, u8) {
        (hi(self.opcode_hi()), lo(self.opcode_hi()), hi(self.opcode_lo()), lo(self.opcode_lo()))
    }

    pub open spec fn vx(self, x: u8) -> u8 {
        self.reg[x as int]
    }

    pub open spec fn advanced(self) -> Chip8State {
        Chip8State { pc: (self.pc + 2) as u16, ..self }
    }

    pub open spec fn skip_if(self, cond: bool) -> Chip8State {
        if cond {
            self.advanced().advanced()
        } else {
            self.advanced()
        }
    }

    pub open spec fn with_reg(self, x: int, v: u8) -> Chip8State {
        Chip8State { reg: self.reg.update(x, v), ..self }
    }

    /// Writes `v` into `Vx`, then `f` into `VF` (so `VF` wins when `x` is `F`).
    pub open spec fn with_reg_flag(self, x: int, v: u8, f: u8) -> Chip8State {
        Chip8State { reg: self.reg.update(x, v).update(15, f), ..self }
    }

    /// `Dxyn` once the frame has been shown: draw, report collision in `VF`, consume the frame.
    pub open spec fn draw(self, x: u8, y: u8, n: u8) -> Chip8State {
        Chip8State {
            screen: drawn_screen(self, x, y, n),
            reg: self.reg.update(15, flag(collides(self, x, y, n))),
            vblank: false,
            ..self
        }
    }

    /// `Fx33`: hundreds, tens and ones of `Vx` at `I`, `I + 1`, `I + 2`.
    pub open spec fn bcd(self, x: u8) -> Chip8State {
        let v = self.vx(x);
        Chip8State {
            memory: self.memory.update(self.i as int, v / 100).update(
                self.i + 1,
                (v % 100) / 10,
            ).update(self.i + 2, v % 10),
            ..self
        }
    }

    /// `Fx55`: `V0..=Vx` stored at `I..=I + x`, then `I` moves past them.
    pub open spec fn store_regs(self, x: u8) -> Chip8State {
        Chip8State {
            memory: Seq::new(
                self.memory.len(),
                |k: int|
                    if self.i <= k <= self.i + x {
                        self.reg[k - self.i]
                    } else {
                        self.memory[k]
                    },
            ),
            i: (self.i + x + 1) as u16,
            ..self
        }
    }

    /// `Fx65`: `V0..=Vx` loaded from `I..=I + x`, then `I` moves past them.
    pub open spec fn load_regs(self, x: u8) -> Chip8State {
        Chip8State {
            reg: Seq::new(
                self.reg.len(),
                |k: int|
                    if k <= x {
                        self.memory[self.i + k]
                    } else {
                        self.reg[k]
                    },
            ),
            i: (self.i + x + 1) as u16,
            ..self
        }
    }

    /// The state after executing the instruction at `pc`; `random` is the byte a `Cxkk` draws.
    pub open spec fn step(self, random: u8) -> Chip8State {
        let kk = self.opcode_lo();
        match self.nibbles() {
            (0x0, 0x0, 0xE, 0x0) => Chip8State {
                screen: Seq::new(self.screen.len(), |p: int| OFF_COLOR),
                ..self
            }.advanced(),
            (0x0, 0x0, 0xE, 0xE) => Chip8State {
                sp: (self.sp - 1) as u8,
                pc: self.stack[self.sp - 1],
                ..self
            }.advanced(),
            (0x1, n1, n2, n3) => Chip8State { pc: address(n1, n2, n3), ..self },
            (0x2, n1, n2, n3) => Chip8State {
                stack: self.stack.update(self.sp as int, self.pc),
                sp: (self.sp + 1) as u8,
                pc: address(n1, n2, n3),
                ..self
            },
            (0x3, x, _, _) => self.skip_if(self.vx(x) == kk),
            (0x4, x, _, _) => self.skip_if(self.vx(x) != kk),
            (0x5, x, y, 0x0) => self.skip_if(self.vx(x) == self.vx(y)),
            (0x6, x, _, _) => self.with_reg(x as int, kk).advanced(),
            (0x7, x, _, _) => self.with_reg_flag(
                x as int,
                ((self.vx(x) + kk) % 256) as u8,
                flag(self.vx(x) + kk > 255),
            ).advanced(),
            (0x8, x, y, 0x0) => self.with_reg(x as int, self.vx(y)).advanced(),
            (0x8, x, y, 0x1) => self.with_reg_flag(x as int, self.vx(x) | self.vx(y), 0).advanced(),
            (0x8, x, y, 0x2) => self.with_reg_flag(x as int, self.vx(x) & self.vx(y), 0).advanced(),
            (0x8, x, y, 0x3) => self.with_reg_flag(x as int, self.vx(x) ^ self.vx(y), 0).advanced(),
            (0x8, x, y, 0x4) => self.with_reg_flag(
                x as int,
                ((self.vx(x) + self.vx(y)) % 256) as u8,
                flag(self.vx(x) + self.vx(y) > 255),
            ).advanced(),
            (0x8, x, y, 0x5) => self.with_reg_flag(
                x as int,
                ((self.vx(x) - self.vx(y) + 256) % 256) as u8,
                flag(self.vx(x) >= self.vx(y)),
            ).advanced(),
            (0x8, x, y, 0x6) => self.with_reg_flag(
                x as int,
                self.vx(y) / 2,
                self.vx(y) % 2,
            ).advanced(),
            (0x8, x, y, 0x7) => self.with_reg_flag(
                x as int,
                ((self.vx(y) - self.vx(x) + 256) % 256) as u8,
                flag(self.vx(y) >= self.vx(x)),
            ).advanced(),
            (0x8, x, y, 0xE) => self.with_reg_flag(
                x as int,
                ((self.vx(y) * 2) % 256) as u8,
                flag(self.vx(y) >= 128),
            ).advanced(),
            (0x9, x, y, 0x0) => self.skip_if(self.vx(x) != self.vx(y)),
            (0xA, n1, n2, n3) => Chip8State { i: address(n1, n2, n3), ..self }.advanced(),
            (0xB, n1, n2, n3) => Chip8State {
                pc: (address(n1, n2, n3) + self.vx(0)) as u16,
                ..self
            },
            (0xC, x, _, _) => self.with_reg(x as int, kk & random).advanced(),
            (0xD, x, y, n) => if self.vblank {
                self.draw(x, y, n).advanced()
            } else {
                self
            },
            (0xE, x, 0x9, 0xE) => self.skip_if(self.keys[self.vx(x) as int]),
            (0xE, x, 0xA, 0x1) => self.skip_if(!self.keys[self.vx(x) as int]),
            (0xF, x, 0x0, 0x7) => self.with_reg(x as int, self.delay).advanced(),
            (0xF, x, 0x0, 0xA) => if any_pressed(self.keys) {
                self.with_reg(x as int, first_pressed(self.keys) as u8).advanced()
            } else {
                self
            },
            (0xF, x, 0x1, 0x5) => Chip8State { delay: self.vx(x), ..self }.advanced(),
            (0xF, x, 0x1, 0xE) => Chip8State { i: (self.i + self.vx(x)) as u16, ..self }.advanced(),
            (0xF, x, 0x2, 0x9) => Chip8State { i: (self.vx(x) * 5) as u16, ..self }.advanced(),
            (0xF, x, 0x3, 0x3) => self.bcd(x).advanced(),
            (0xF, x, 0x5, 0x5) => self.store_regs(x).advanced(),
            (0xF, x, 0x6, 0x5) => self.load_regs(x).advanced(),
            _ => self,
        }
    }

    /// Whether the instruction at `pc` is one the machine knows and can execute
    /// without an out-of-range access or an arithmetic overflow.
    pub open spec fn can_step(self) -> bool {
        &&& self.pc + 1 < self.memory.len()
        &&& match self.nibbles() {
            (0x0, 0x0, 0xE, 0x0) => true,
            (0x0, 0x0, 0xE, 0xE) => 1 <= self.sp <= self.stack.len() && self.stack[self.sp - 1]
                + 2 <= u16::MAX,
            (0x1, _, _, _) => true,
            (0x2, _, _, _) => self.sp < self.stack.len(),
            (0x3, _, _, _) => true,
            (0x4, _, _, _) => true,
            (0x5, _, _, 0x0) => true,
            (0x6, _, _, _) => true,
            (0x7, _, _, _) => true,
            (0x8, _, _, 0x0) => true,
            (0x8, _, _, 0x1) => true,
            (0x8, _, _, 0x2) => true,
            (0x8, _, _, 0x3) => true,
            (0x8, _, _, 0x4) => true,
            (0x8, _, _, 0x5) => true,
            (0x8, _, _, 0x6) => true,
            (0x8, _, _, 0x7) => true,
            (0x8, _, _, 0xE) => true,
            (0x9, _, _, 0x0) => true,
            (0xA, _, _, _) => true,
            (0xB, _, _, _) => true,
            (0xC, _, _, _) => true,
            (0xD, x, y, n) => self.vblank && sprite_rows(self, y, n) > 0 ==> self.i + sprite_rows(
                self,
                y,
                n,
            ) <= self.memory.len(),
            (0xE, x, 0x9, 0xE) => self.vx(x) < self.keys.len(),
            (0xE, x, 0xA, 0x1) => self.vx(x) < self.keys.len(),
            (0xF, _, 0x0, 0x7) => true,
            (0xF, _, 0x0, 0xA) => true,
            (0xF, _, 0x1, 0x5) => true,
            (0xF, x, 0x1, 0xE) => self.i + self.vx(x) <= u16::MAX,
            (0xF, _, 0x2, 0x9) => true,
            (0xF, _, 0x3, 0x3) => self.i + 2 < self.memory.len(),
            (0xF, x, 0x5, 0x5) => self.i + x < self.memory.len(),
            (0xF, x, 0x6, 0x5) => self.i + x < self.memory.len(),
            _ => false,
        }
    }
}

} // verus!
