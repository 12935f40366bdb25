use crate::model::{
    address, any_pressed, collides, drawn_screen, first_pressed, flag, is_first_pressed,
    sprite_cols, sprite_hit, sprite_pixel, sprite_rows, sprite_x, sprite_y, toggled, Chip8State,
    HEIGHT, KEY_COUNT, MEMORY_SIZE, OFF_COLOR, ON_COLOR, PROGRAM_START, REGISTER_COUNT,
    STACK_SIZE, WIDTH,
};
use crate::random::Generator;
use vstd::prelude::*;

verus! {

/// The built-in hexadecimal font: five rows per digit, `0` to `F`.
pub open spec fn font() -> Seq<u8> {
    seq![
        0xF0u8, 0x90, 0x90, 0x90, 0xF0, 0x20, 0x60, 0x20, 0x20, 0x70, 0xF0, 0x10, 0xF0, 0x80,
        0xF0, 0xF0, 0x10, 0xF0, 0x10, 0xF0, 0x90, 0x90, 0xF0, 0x10, 0x10, 0xF0, 0x80, 0xF0,
        0x10, 0xF0, 0xF0, 0x80, 0xF0, 0x90, 0xF0, 0xF0, 0x10, 0x20, 0x40, 0x40, 0xF0, 0x90,
        0xF0, 0x90, 0xF0, 0xF0, 0x90, 0xF0, 0x10, 0xF0, 0xF0, 0x90, 0xF0, 0x90, 0x90, 0xE0,
        0x90, 0xE0, 0x90, 0xE0, 0xF0, 0x80, 0x80, 0x80, 0xF0, 0xE0, 0x90, 0x90, 0x90, 0xE0,
        0xF0, 0x80, 0xF0, 0x80, 0xF0, 0xF0, 0x80, 0xF0, 0x80, 0x80,
    ]
}

/// A CHIP-8 machine. `keys` is written by the front end: `keys[k]` is whether key `k` is down.
pub struct Chip8 {
    pub keys: Vec<bool>,
    vblank: bool,
    rng: Generator,
    screen: Vec<u32>,
    memory: Vec<u8>,
    stack: Vec<u16>,
    reg: Vec<u8>,
    i: u16,
    delay: u8,
    pc: u16,
    sp: u8,
}

impl View for Chip8 {
    type V = Chip8State;

    closed spec fn view(&self) -> Chip8State {
        Chip8State {
            keys: self.keys@,
            vblank: self.vblank,
            screen: self.screen@,
            memory: self.memory@,
            stack: self.stack@,
            reg: self.reg@,
            i: self.i,
            delay: self.delay,
            pc: self.pc,
            sp: self.sp,
        }
    }
}

impl Chip8 {
    pub open spec fn wf(&self) -> bool {
        self@.wf()
    }

    /// The bytes the machine's generator has handed out so far, oldest first.
    pub closed spec fn drawn(&self) -> Seq<u8> {
        self.rng.drawn()
    }

    /// A machine just switched on: font at address 0, rest of memory cleared,
    /// blank screen, no key down, program counter at `0x200`.
    pub fn new() -> (res: Self)
        ensures
            res.wf(),
            res@.memory == font() + Seq::new((MEMORY_SIZE - 80) as nat, |k: int| 0u8),
            res@.keys == Seq::new(KEY_COUNT as nat, |k: int| false),
            res@.screen == Seq::new((WIDTH * HEIGHT) as nat, |p: int| OFF_COLOR),
            res@.stack == Seq::new(STACK_SIZE as nat, |k: int| 0u16),
            res@.reg == Seq::new(REGISTER_COUNT as nat, |k: int| 0u8),
            res@.pc == PROGRAM_START,
            res@.i == 0,
            res@.delay == 0,
            res@.sp == 0,
            !res@.vblank,
            res.drawn() == Seq::<u8>::empty(),
    {
        let mut memory: Vec<u8> = vec![
            0xF0, 0x90, 0x90, 0x90, 0xF0, 0x20, 0x60, 0x20, 0x20, 0x70, 0xF0, 0x10, 0xF0, 0x80,
            0xF0, 0xF0, 0x10, 0xF0, 0x10, 0xF0, 0x90, 0x90, 0xF0, 0x10, 0x10, 0xF0, 0x80, 0xF0,
            0x10, 0xF0, 0xF0, 0x80, 0xF0, 0x90, 0xF0, 0xF0, 0x10, 0x20, 0x40, 0x40, 0xF0, 0x90,
            0xF0, 0x90, 0xF0, 0xF0, 0x90, 0xF0, 0x10, 0xF0, 0xF0, 0x90, 0xF0, 0x90, 0x90, 0xE0,
            0x90, 0xE0, 0x90, 0xE0, 0xF0, 0x80, 0x80, 0x80, 0xF0, 0xE0, 0x90, 0x90, 0x90, 0xE0,
            0xF0, 0x80, 0xF0, 0x80, 0xF0, 0xF0, 0x80, 0xF0, 0x80, 0x80,
        ];
        assert(memory@ == font());
        memory.resize(MEMORY_SIZE, 0);
        assert(memory@ == font() + Seq::new((MEMORY_SIZE - 80) as nat, |k: int| 0u8));
        let res = Chip8 {
            keys: vec![false; KEY_COUNT],
            screen: vec![OFF_COLOR; WIDTH * HEIGHT],
            memory,
            rng: Generator::new(),
            stack: vec![0; STACK_SIZE],
            reg: vec![0; REGISTER_COUNT],
            pc: PROGRAM_START,
            i: 0,
            delay: 0,
            sp: 0,
            vblank: false,
        };
        assert(res@.keys == Seq::new(KEY_COUNT as nat, |k: int| false));
        assert(res@.screen == Seq::new((WIDTH * HEIGHT) as nat, |p: int| OFF_COLOR));
        assert(res@.stack == Seq::new(STACK_SIZE as nat, |k: int| 0u16));
        assert(res@.reg == Seq::new(REGISTER_COUNT as nat, |k: int| 0u8));
        res
    }

    /// The screen, row by row, one color per pixel.
    pub fn get_buffer(&self) -> (res: &[u32])
        ensures
            res@ == self@.screen,
    {
        self.screen.as_slice()
    }

    /// The value of register `Vn`.
    pub fn get_reg(&self, n: u8) -> (v: u8)
        requires
            self.wf(),
            n < REGISTER_COUNT,
        ensures
            v == self@.reg[n as int],
    {
        self.reg[n as usize]
    }

    fn set_reg(&mut self, n: u8, value: u8)
        requires
            old(self).wf(),
            n < REGISTER_COUNT,
        ensures
            final(self).drawn() == old(self).drawn(),
            final(self).wf(),
            final(self)@ == old(self)@.with_reg(n as int, value),
    {
        self.reg.set(n as usize, value);
    }

    /// The program counter.
    pub fn pc(&self) -> (pc: u16)
        ensures
            pc == self@.pc,
    {
        self.pc
    }

    /// The index register `I`.
    pub fn index(&self) -> (i: u16)
        ensures
            i == self@.i,
    {
        self.i
    }

    /// The delay timer.
    pub fn delay(&self) -> (d: u8)
        ensures
            d == self@.delay,
    {
        self.delay
    }

    /// Copies a ROM image to the program area at `0x200`, as much of it as fits,
    /// and returns the number of bytes copied.
    pub fn load(&mut self, rom: &[u8]) -> (n: usize)
        requires
            old(self).wf(),
        ensures
            final(self).drawn() == old(self).drawn(),
            final(self).wf(),
            n as int == crate::model::min(rom@.len() as int, MEMORY_SIZE - PROGRAM_START),
            final(self)@ == (Chip8State {
                memory: old(self)@.memory.take(PROGRAM_START as int) + rom@.take(n as int)
                    + old(self)@.memory.skip(PROGRAM_START + n),
                ..old(self)@
            }),
    {
        let room = MEMORY_SIZE - PROGRAM_START as usize;
        let n = if rom.len() < room {
            rom.len()
        } else {
            room
        };
        let mut k: usize = 0;
        assert(old(self)@.memory.take(PROGRAM_START as int) + rom@.take(0)
            + old(self)@.memory.skip(PROGRAM_START as int) =~= old(self)@.memory);
        while k < n
            invariant
                self.drawn() == old(self).drawn(),
                0 <= k <= n,
                n <= room,
                room == MEMORY_SIZE - PROGRAM_START,
                n <= rom@.len(),
                self.wf(),
                old(self).wf(),
                self@ == (Chip8State {
                    memory: old(self)@.memory.take(PROGRAM_START as int) + rom@.take(k as int)
                        + old(self)@.memory.skip(PROGRAM_START + k),
                    ..old(self)@
                }),
            decreases n - k,
        {
            let ghost before = self.memory@;
            self.memory.set(PROGRAM_START as usize + k, rom[k]);
            assert(self.memory@ == before.update(PROGRAM_START + k, rom@[k as int]));
            assert(before == old(self)@.memory.take(PROGRAM_START as int) + rom@.take(k as int)
                + old(self)@.memory.skip(PROGRAM_START + k));
            let ghost m0 = old(self)@.memory;
            let ghost lo = m0.take(PROGRAM_START as int);
            let ghost next = lo + rom@.take(k + 1) + m0.skip(PROGRAM_START + k + 1);
            assert forall|j: int| 0 <= j < m0.len() implies #[trigger] next[j] == self.memory@[j] by {
                if j < PROGRAM_START {
                } else if j < PROGRAM_START + k {
                    assert(next[j] == rom@.take(k + 1)[j - PROGRAM_START]);
                    assert(before[j] == rom@.take(k as int)[j - PROGRAM_START]);
                } else if j == PROGRAM_START + k {
                    assert(next[j] == rom@.take(k + 1)[j - PROGRAM_START]);
                } else {
                    assert(next[j] == m0.skip(PROGRAM_START + k + 1)[j - PROGRAM_START - k - 1]);
                    assert(before[j] == m0.skip(PROGRAM_START + k)[j - PROGRAM_START - k]);
                }
            }
            assert(self.memory@ =~= next);
            k = k + 1;
        }
        n
    }

    /// One tick of the 60 Hz delay timer: it counts down to zero and stays there.
    pub fn dec_delay(&mut self)
        requires
            old(self).wf(),
        ensures
            final(self).drawn() == old(self).drawn(),
            final(self).wf(),
            final(self)@ == (Chip8State {
                delay: if old(self)@.delay > 0 {
                    (old(self)@.delay - 1) as u8
                } else {
                    0
                },
                ..old(self)@
            }),
    {
        if self.delay > 0 {
            self.delay -= 1;
        }
    }

    /// Marks that a frame has been shown: the next `Dxyn` may draw.
    pub fn set_vblank(&mut self)
        requires
            old(self).wf(),
        ensures
            final(self).drawn() == old(self).drawn(),
            final(self).wf(),
            final(self)@ == (Chip8State { vblank: true, ..old(self)@ }),
    {
        self.vblank = true;
    }

    fn next(&mut self)
        requires
            old(self)@.pc + 2 <= u16::MAX,
        ensures
            final(self).drawn() == old(self).drawn(),
            final(self)@ == old(self)@.advanced(),
            final(self).wf() == old(self).wf(),
    {
        self.pc += 2;
    }

    /// Executes the instruction at `pc`; `random` is the byte an `Cxkk` masks.
    /// Jumps, calls and a draw or key wait that has to wait leave `pc` where they put
    /// it; every other instruction then moves on to the next one.
    pub fn execute(&mut self, random: u8)
        requires
            old(self).wf(),
            old(self)@.can_step(),
        ensures
            final(self).wf(),
            final(self)@ == old(self)@.step(random),
            final(self).drawn() == old(self).drawn(),
    {
        let ih = self.memory[self.pc as usize];
        let il = self.memory[self.pc as usize + 1];
        let kind = (ih & 0xF0) >> 4;
        let op1 = ih & 0x0F;
        let op2 = (il & 0xF0) >> 4;
        let op3 = il & 0x0F;
        proof {
            lemma_nibbles(ih);
            lemma_nibbles(il);
            assert((kind, op1, op2, op3) == old(self)@.nibbles());
        }
        match (kind, op1, op2, op3) {
            (0x0, 0x0, 0xE, 0x0) => self.cls(),
            (0x0, 0x0, 0xE, 0xE) => self.ret(),
            (0x1, n1, n2, n3) => {
                self.jmp(n1, n2, n3);
                return ;
            },
            (0x2, n1, n2, n3) => {
                self.call(n1, n2, n3);
                return ;
            },
            (0x3, n1, _, _) => self.se(n1, il),
            (0x4, n1, _, _) => self.sne(n1, il),
            (0x5, n1, n2, 0x0) => self.se_reg(n1, n2),
            (0x6, n1, _, _) => self.ld(n1, il),
            (0x7, n1, _, _) => self.add(n1, il),
            (0x8, n1, n2, 0x0) => self.ld_reg(n1, n2),
            (0x8, n1, n2, 0x1) => self.or(n1, n2),
            (0x8, n1, n2, 0x2) => self.and(n1, n2),
            (0x8, n1, n2, 0x3) => self.xor(n1, n2),
            (0x8, n1, n2, 0x4) => self.add_reg(n1, n2),
            (0x8, n1, n2, 0x5) => self.sub(n1, n2),
            (0x8, n1, n2, 0x6) => self.shr(n1, n2),
            (0x8, n1, n2, 0x7) => self.subn(n1, n2),
            (0x8, n1, n2, 0xE) => self.shl(n1, n2),
            (0x9, n1, n2, 0x0) => self.sne_reg(n1, n2),
            (0xA, n1, n2, n3) => self.ld_i(n1, n2, n3),
            (0xB, n1, n2, n3) => {
                self.jmp_v0(n1, n2, n3);
                return ;
            },
            (0xC, n1, _, _) => self.rnd(n1, il, random),
            (0xD, n1, n2, n3) => {
                if !self.drw(n1, n2, n3) {
                    return ;
                }
            },
            (0xE, n1, 0x9, 0xE) => self.skp(n1),
            (0xE, n1, 0xA, 0x1) => self.sknp(n1),
            (0xF, n1, 0x0, 0x7) => self.ld_delay(n1),
            (0xF, n1, 0x0, 0xA) => {
                if !self.wait_key(n1) {
                    return ;
                }
            },
            (0xF, n1, 0x1, 0x5) => self.ld_todelay(n1),
            (0xF, n1, 0x1, 0xE) => self.add_i(n1),
            (0xF, n1, 0x2, 0x9) => self.ld_d_i(n1),
            (0xF, n1, 0x3, 0x3) => self.bcd(n1),
            (0xF, n1, 0x5, 0x5) => self.ld_i_vx(n1),
            (0xF, n1, 0x6, 0x5) => self.ld_vx_i(n1),
            _ => {
                // `can_step` rules out every opcode the machine does not know.
                assert(false);
                return ;
            },
        }
        self.next();
    }

    /// Whether the instruction at `pc` is known and can run without an out-of-range
    /// access or an overflow; the front end checks this before `run`.
    pub fn can_step(&self) -> (ok: bool)
        requires
            self.wf(),
        ensures
            ok == self@.can_step(),
    {
        if self.pc as usize + 1 >= self.memory.len() {
            return false;
        }
        let ih = self.memory[self.pc as usize];
        let il = self.memory[self.pc as usize + 1];
        let kind = (ih & 0xF0) >> 4;
        let op1 = ih & 0x0F;
        let op2 = (il & 0xF0) >> 4;
        let op3 = il & 0x0F;
        proof {
            lemma_nibbles(ih);
            lemma_nibbles(il);
            assert((kind, op1, op2, op3) == self@.nibbles());
        }
        match (kind, op1, op2, op3) {
            (0x0, 0x0, 0xE, 0x0) => true,
            (0x0, 0x0, 0xE, 0xE) => 1 <= self.sp && self.sp as usize <= self.stack.len()
                && self.stack[self.sp as usize - 1] <= u16::MAX - 2,
            (0x1, _, _, _) => true,
            (0x2, _, _, _) => (self.sp as usize) < self.stack.len(),
            (0x3, _, _, _) => true,
            (0x4, _, _, _) => true,
            (0x5, _, _, 0x0) => true,
            (0x6, _, _, _) => true,
            (0x7, _, _, _) => true,
            (0x8, _, _, 0x0) => true,
            (0x8, _, _, 0x1) => true,
            (0x8, _, _, 0x2) => true,
            (0x8, _, _, 0x3) => true,
            (0x8, _, _, 0x4) => true,
            (0x8, _, _, 0x5) => true,
            (0x8, _, _, 0x6) => true,
            (0x8, _, _, 0x7) => true,
            (0x8, _, _, 0xE) => true,
            (0x9, _, _, 0x0) => true,
            (0xA, _, _, _) => true,
            (0xB, _, _, _) => true,
            (0xC, _, _, _) => true,
            (0xD, _, n2, n3) => {
                let y = self.get_reg(n2) % (HEIGHT as u8);
                let rows: usize = if (n3 as usize) < HEIGHT - y as usize {
                    n3 as usize
                } else {
                    HEIGHT - y as usize
                };
                assert(rows == sprite_rows(self@, n2, n3));
                !(self.vblank && rows > 0) || self.i as usize + rows <= self.memory.len()
            },
            (0xE, n1, 0x9, 0xE) => (self.get_reg(n1) as usize) < self.keys.len(),
            (0xE, n1, 0xA, 0x1) => (self.get_reg(n1) as usize) < self.keys.len(),
            (0xF, _, 0x0, 0x7) => true,
            (0xF, _, 0x0, 0xA) => true,
            (0xF, _, 0x1, 0x5) => true,
            (0xF, n1, 0x1, 0xE) => self.i as u32 + self.get_reg(n1) as u32 <= u16::MAX as u32,
            (0xF, _, 0x2, 0x9) => true,
            (0xF, _, 0x3, 0x3) => (self.i as usize) + 2 < self.memory.len(),
            (0xF, n1, 0x5, 0x5) => (self.i as usize) + (n1 as usize) < self.memory.len(),
            (0xF, n1, 0x6, 0x5) => (self.i as usize) + (n1 as usize) < self.memory.len(),
            _ => false,
        }
    }

    /// Runs one instruction. Only `Cxkk` draws a byte from the machine's generator;
    /// whatever byte it draws, the new state is `step` of the old one with that byte.
    pub fn run(&mut self)
        requires
            old(self).wf(),
            old(self)@.can_step(),
        ensures
            final(self).wf(),
            exists|random: u8| final(self)@ == old(self)@.step(random),
            old(self)@.memory[old(self)@.pc as int] / 16 == 0xC ==> {
                &&& final(self).drawn().len() == old(self).drawn().len() + 1
                &&& final(self).drawn() == old(self).drawn().push(final(self).drawn().last())
                &&& final(self)@ == old(self)@.step(final(self).drawn().last())
            },
            old(self)@.memory[old(self)@.pc as int] / 16 != 0xC ==> {
                &&& final(self).drawn() == old(self).drawn()
                &&& final(self)@ == old(self)@.step(0)
            },
    {
        let ih = self.memory[self.pc as usize];
        assert((ih & 0xF0 == 0xC0) == (ih / 16 == 0xC)) by (bit_vector);
        let random = if ih & 0xF0 == 0xC0 {
            self.rng.next_byte()
        } else {
            0
        };
        self.execute(random);
    }

    /// `00E0`: clear the screen.
    fn cls(&mut self)
        requires
            old(self).wf(),
        ensures
            final(self).drawn() == old(self).drawn(),
            final(self).wf(),
            final(self)@ == (Chip8State {
                screen: Seq::new(old(self)@.screen.len(), |p: int| OFF_COLOR),
                ..old(self)@
            }),
    {
        let mut k: usize = 0;
        while k < self.screen.len()
            invariant
                self.drawn() == old(self).drawn(),
                0 <= k <= self.screen.len(),
                old(self).wf(),
                self.screen.len() == old(self)@.screen.len(),
                self@ == (Chip8State { screen: self@.screen, ..old(self)@ }),
                forall|p: int| 0 <= p < k ==> #[trigger] self@.screen[p] == OFF_COLOR,
                forall|p: int| k <= p < self.screen.len() ==> #[trigger] self@.screen[p]
                    == old(self)@.screen[p],
            decreases self.screen.len() - k,
        {
            self.screen.set(k, OFF_COLOR);
            k = k + 1;
        }
        assert(self@.screen =~= Seq::new(old(self)@.screen.len(), |p: int| OFF_COLOR));
    }

    /// `00EE`: return from a subroutine (pop the return address).
    fn ret(&mut self)
        requires
            old(self).wf(),
            1 <= old(self)@.sp <= STACK_SIZE,
        ensures
            final(self).drawn() == old(self).drawn(),
            final(self).wf(),
            final(self)@ == (Chip8State {
                sp: (old(self)@.sp - 1) as u8,
                pc: old(self)@.stack[old(self)@.sp - 1],
                ..old(self)@
            }),
    {
        self.sp -= 1;
        self.pc = self.stack[self.sp as usize];
    }

    /// `1nnn`: jump to `nnn`.
    fn jmp(&mut self, n1: u8, n2: u8, n3: u8)
        requires
            old(self).wf(),
            n1 < 16,
            n2 < 16,
            n3 < 16,
        ensures
            final(self).drawn() == old(self).drawn(),
            final(self).wf(),
            final(self)@ == (Chip8State { pc: address(n1, n2, n3), ..old(self)@ }),
    {
        let addr = ((n1 as u16) << 8) | (n2 << 4 | n3) as u16;
        proof {
            lemma_address(n1, n2, n3);
        }
        self.pc = addr;
    }

    /// `2nnn`: call the subroutine at `nnn` (push the current address).
    fn call(&mut self, n1: u8, n2: u8, n3: u8)
        requires
            old(self).wf(),
            n1 < 16,
            n2 < 16,
            n3 < 16,
            old(self)@.sp < STACK_SIZE,
        ensures
            final(self).drawn() == old(self).drawn(),
            final(self).wf(),
            final(self)@ == (Chip8State {
                stack: old(self)@.stack.update(old(self)@.sp as int, old(self)@.pc),
                sp: (old(self)@.sp + 1) as u8,
                pc: address(n1, n2, n3),
                ..old(self)@
            }),
    {
        let addr = ((n1 as u16) << 8) | (n2 << 4 | n3) as u16;
        proof {
            lemma_address(n1, n2, n3);
        }
        self.stack.set(self.sp as usize, self.pc);
        self.sp += 1;
        self.pc = addr;
    }

    /// `3xkk`: skip the next instruction when `Vx == kk`.
    fn se(&mut self, n1: u8, kk: u8)
        requires
            old(self).wf(),
            n1 < 16,
            old(self)@.pc + 2 <= u16::MAX,
        ensures
            final(self).drawn() == old(self).drawn(),
            final(self).wf(),
            final(self)@ == if old(self)@.vx(n1) == kk {
                old(self)@.advanced()
            } else {
                old(self)@
            },
    {
        let vx = self.get_reg(n1);
        if vx == kk {
            self.next();
        }
    }

    /// `4xkk`: skip the next instruction when `Vx != kk`.
    fn sne(&mut self, n1: u8, kk: u8)
        requires
            old(self).wf(),
            n1 < 16,
            old(self)@.pc + 2 <= u16::MAX,
        ensures
            final(self).drawn() == old(self).drawn(),
            final(self).wf(),
            final(self)@ == if old(self)@.vx(n1) != kk {
                old(self)@.advanced()
            } else {
                old(self)@
            },
    {
        let vx = self.get_reg(n1);
        if vx != kk {
            self.next();
        }
    }

    /// `5xy0`: skip the next instruction when `Vx == Vy`.
    fn se_reg(&mut self, n1: u8, n2: u8)
        requires
            old(self).wf(),
            n1 < 16,
            n2 < 16,
            old(self)@.pc + 2 <= u16::MAX,
        ensures
            final(self).drawn() == old(self).drawn(),
            final(self).wf(),
            final(self)@ == if old(self)@.vx(n1) == old(self)@.vx(n2) {
                old(self)@.advanced()
            } else {
                old(self)@
            },
    {
        let vx = self.get_reg(n1);
        let vy = self.get_reg(n2);
        if vx == vy {
            self.next();
        }
    }

    /// `6xkk`: `Vx = kk`.
    fn ld(&mut self, n1: u8, kk: u8)
        requires
            old(self).wf(),
            n1 < 16,
        ensures
            final(self).drawn() == old(self).drawn(),
            final(self).wf(),
            final(self)@ == old(self)@.with_reg(n1 as int, kk),
    {
        self.set_reg(n1, kk);
    }

    /// `7xkk`: `Vx += kk`, with the carry in `VF`.
    fn add(&mut self, n1: u8, kk: u8)
        requires
            old(self).wf(),
            n1 < 16,
        ensures
            final(self).drawn() == old(self).drawn(),
            final(self).wf(),
            final(self)@ == old(self)@.with_reg_flag(
                n1 as int,
                ((old(self)@.vx(n1) + kk) % 256) as u8,
                flag(old(self)@.vx(n1) + kk > 255),
            ),
    {
        let vx = self.get_reg(n1);
        let sum: u16 = vx as u16 + kk as u16;
        self.set_reg(n1, (sum % 256) as u8);
        if sum > 255 {
            self.set_reg(0xF, 1);
        } else {
            self.set_reg(0xF, 0);
        }
    }

    /// `8xy0`: `Vx = Vy`.
    fn ld_reg(&mut self, n1: u8, n2: u8)
        requires
            old(self).wf(),
            n1 < 16,
            n2 < 16,
        ensures
            final(self).drawn() == old(self).drawn(),
            final(self).wf(),
            final(self)@ == old(self)@.with_reg(n1 as int, old(self)@.vx(n2)),
    {
        let vy = self.get_reg(n2);
        self.set_reg(n1, vy);
    }

    /// `8xy1`: `Vx |= Vy`, `VF = 0`.
    fn or(&mut self, n1: u8, n2: u8)
        requires
            old(self).wf(),
            n1 < 16,
            n2 < 16,
        ensures
            final(self).drawn() == old(self).drawn(),
            final(self).wf(),
            final(self)@ == old(self)@.with_reg_flag(
                n1 as int,
                old(self)@.vx(n1) | old(self)@.vx(n2),
                0,
            ),
    {
        let vx = self.get_reg(n1);
        let vy = self.get_reg(n2);
        self.set_reg(n1, vx | vy);
        self.set_reg(0xF, 0);
    }

    /// `8xy2`: `Vx &= Vy`, `VF = 0`.
    fn and(&mut self, n1: u8, n2: u8)
        requires
            old(self).wf(),
            n1 < 16,
            n2 < 16,
        ensures
            final(self).drawn() == old(self).drawn(),
            final(self).wf(),
            final(self)@ == old(self)@.with_reg_flag(
                n1 as int,
                old(self)@.vx(n1) & old(self)@.vx(n2),
                0,
            ),
    {
        let vx = self.get_reg(n1);
        let vy = self.get_reg(n2);
        self.set_reg(n1, vx & vy);
        self.set_reg(0xF, 0);
    }

    /// `8xy3`: `Vx ^= Vy`, `VF = 0`.
    fn xor(&mut self, n1: u8, n2: u8)
        requires
            old(self).wf(),
            n1 < 16,
            n2 < 16,
        ensures
            final(self).drawn() == old(self).drawn(),
            final(self).wf(),
            final(self)@ == old(self)@.with_reg_flag(
                n1 as int,
                old(self)@.vx(n1) ^ old(self)@.vx(n2),
                0,
            ),
    {
        let vx = self.get_reg(n1);
        let vy = self.get_reg(n2);
        self.set_reg(n1, vx ^ vy);
        self.set_reg(0xF, 0);
    }

    /// `8xy4`: `Vx += Vy`, with the carry in `VF`.
    fn add_reg(&mut self, n1: u8, n2: u8)
        requires
            old(self).wf(),
            n1 < 16,
            n2 < 16,
        ensures
            final(self).drawn() == old(self).drawn(),
            final(self).wf(),
            final(self)@ == old(self)@.with_reg_flag(
                n1 as int,
                ((old(self)@.vx(n1) + old(self)@.vx(n2)) % 256) as u8,
                flag(old(self)@.vx(n1) + old(self)@.vx(n2) > 255),
            ),
    {
        let vx = self.get_reg(n1);
        let vy = self.get_reg(n2);
        let sum: u16 = vx as u16 + vy as u16;
        self.set_reg(n1, (sum % 256) as u8);
        if sum > 255 {
            self.set_reg(0xF, 1);
        } else {
            self.set_reg(0xF, 0);
        }
    }

    /// `8xy5`: `Vx -= Vy` (wrapping), `VF = 1` when there was no borrow.
    fn sub(&mut self, n1: u8, n2: u8)
        requires
            old(self).wf(),
            n1 < 16,
            n2 < 16,
        ensures
            final(self).drawn() == old(self).drawn(),
            final(self).wf(),
            final(self)@ == old(self)@.with_reg_flag(
                n1 as int,
                ((old(self)@.vx(n1) - old(self)@.vx(n2) + 256) % 256) as u8,
                flag(old(self)@.vx(n1) >= old(self)@.vx(n2)),
            ),
    {
        let vx = self.get_reg(n1);
        let vy = self.get_reg(n2);
        let c = if vx >= vy {
            1
        } else {
            0
        };
        self.set_reg(n1, vx.wrapping_sub(vy));
        self.set_reg(0xF, c);
    }

    /// `8xy6`: `Vx = Vy >> 1`, the bit shifted out in `VF`.
    fn shr(&mut self, n1: u8, n2: u8)
        requires
            old(self).wf(),
            n1 < 16,
            n2 < 16,
        ensures
            final(self).drawn() == old(self).drawn(),
            final(self).wf(),
            final(self)@ == old(self)@.with_reg_flag(
                n1 as int,
                old(self)@.vx(n2) / 2,
                old(self)@.vx(n2) % 2,
            ),
    {
        let vy = self.get_reg(n2);
        let c = if vy & 0x01 == 1 {
            1
        } else {
            0
        };
        let res = vy >> 1;
        proof {
            lemma_shift_right_one(vy);
        }
        self.set_reg(n1, res);
        self.set_reg(0xF, c);
    }

    /// `8xy7`: `Vx = Vy - Vx` (wrapping), `VF = 1` when there was no borrow.
    fn subn(&mut self, n1: u8, n2: u8)
        requires
            old(self).wf(),
            n1 < 16,
            n2 < 16,
        ensures
            final(self).drawn() == old(self).drawn(),
            final(self).wf(),
            final(self)@ == old(self)@.with_reg_flag(
                n1 as int,
                ((old(self)@.vx(n2) - old(self)@.vx(n1) + 256) % 256) as u8,
                flag(old(self)@.vx(n2) >= old(self)@.vx(n1)),
            ),
    {
        let vx = self.get_reg(n1);
        let vy = self.get_reg(n2);
        let c = if vy >= vx {
            1
        } else {
            0
        };
        self.set_reg(n1, vy.wrapping_sub(vx));
        self.set_reg(0xF, c);
    }

    /// `8xyE`: `Vx = Vy << 1`, the bit shifted out in `VF`.
    fn shl(&mut self, n1: u8, n2: u8)
        requires
            old(self).wf(),
            n1 < 16,
            n2 < 16,
        ensures
            final(self).drawn() == old(self).drawn(),
            final(self).wf(),
            final(self)@ == old(self)@.with_reg_flag(
                n1 as int,
                ((old(self)@.vx(n2) * 2) % 256) as u8,
                flag(old(self)@.vx(n2) >= 128),
            ),
    {
        let vy = self.get_reg(n2);
        let c = if vy & 0x80 == 0x80 {
            1
        } else {
            0
        };
        let res = vy << 1;
        proof {
            lemma_shift_left_one(vy);
        }
        self.set_reg(n1, res);
        self.set_reg(0xF, c);
    }

    /// `9xy0`: skip the next instruction when `Vx != Vy`.
    fn sne_reg(&mut self, n1: u8, n2: u8)
        requires
            old(self).wf(),
            n1 < 16,
            n2 < 16,
            old(self)@.pc + 2 <= u16::MAX,
        ensures
            final(self).drawn() == old(self).drawn(),
            final(self).wf(),
            final(self)@ == if old(self)@.vx(n1) != old(self)@.vx(n2) {
                old(self)@.advanced()
            } else {
                old(self)@
            },
    {
        let vx = self.get_reg(n1);
        let vy = self.get_reg(n2);
        if vx != vy {
            self.next();
        }
    }

    /// `Annn`: `I = nnn`.
    fn ld_i(&mut self, n1: u8, n2: u8, n3: u8)
        requires
            old(self).wf(),
            n1 < 16,
            n2 < 16,
            n3 < 16,
        ensures
            final(self).drawn() == old(self).drawn(),
            final(self).wf(),
            final(self)@ == (Chip8State { i: address(n1, n2, n3), ..old(self)@ }),
    {
        let addr = ((n1 as u16) << 8) | (n2 << 4 | n3) as u16;
        proof {
            lemma_address(n1, n2, n3);
        }
        self.i = addr;
    }

    /// `Bnnn`: jump to `nnn + V0`.
    fn jmp_v0(&mut self, n1: u8, n2: u8, n3: u8)
        requires
            old(self).wf(),
            n1 < 16,
            n2 < 16,
            n3 < 16,
        ensures
            final(self).drawn() == old(self).drawn(),
            final(self).wf(),
            final(self)@ == (Chip8State {
                pc: (address(n1, n2, n3) + old(self)@.vx(0)) as u16,
                ..old(self)@
            }),
    {
        let addr = ((n1 as u16) << 8) | (n2 << 4 | n3) as u16;
        proof {
            lemma_address(n1, n2, n3);
        }
        let v0 = self.get_reg(0);
        self.pc = addr + v0 as u16;
    }

    /// `Cxkk`: `Vx = kk & random`, where `random` is the byte drawn for this instruction.
    fn rnd(&mut self, n1: u8, kk: u8, random: u8)
        requires
            old(self).wf(),
            n1 < 16,
        ensures
            final(self).drawn() == old(self).drawn(),
            final(self).wf(),
            final(self)@ == old(self)@.with_reg(n1 as int, kk & random),
    {
        self.set_reg(n1, kk & random);
    }

    /// `Ex9E`: skip the next instruction when key `Vx` is down.
    fn skp(&mut self, n1: u8)
        requires
            old(self).wf(),
            n1 < 16,
            old(self)@.pc + 2 <= u16::MAX,
            old(self)@.vx(n1) < old(self)@.keys.len(),
        ensures
            final(self).drawn() == old(self).drawn(),
            final(self).wf(),
            final(self)@ == if old(self)@.keys[old(self)@.vx(n1) as int] {
                old(self)@.advanced()
            } else {
                old(self)@
            },
    {
        let vx = self.get_reg(n1);
        if self.keys[vx as usize] {
            self.next();
        }
    }

    /// `ExA1`: skip the next instruction when key `Vx` is up.
    fn sknp(&mut self, n1: u8)
        requires
            old(self).wf(),
            n1 < 16,
            old(self)@.pc + 2 <= u16::MAX,
            old(self)@.vx(n1) < old(self)@.keys.len(),
        ensures
            final(self).drawn() == old(self).drawn(),
            final(self).wf(),
            final(self)@ == if !old(self)@.keys[old(self)@.vx(n1) as int] {
                old(self)@.advanced()
            } else {
                old(self)@
            },
    {
        let vx = self.get_reg(n1);
        if !self.keys[vx as usize] {
            self.next();
        }
    }

    /// `Fx07`: `Vx = delay timer`.
    fn ld_delay(&mut self, n1: u8)
        requires
            old(self).wf(),
            n1 < 16,
        ensures
            final(self).drawn() == old(self).drawn(),
            final(self).wf(),
            final(self)@ == old(self)@.with_reg(n1 as int, old(self)@.delay),
    {
        self.set_reg(n1, self.delay);
    }

    /// `Fx0A`: `Vx = ` the lowest-numbered key that is down. Returns whether one
    /// was; when none is, nothing changes and the instruction is run again.
    fn wait_key(&mut self, n1: u8) -> (pressed: bool)
        requires
            old(self).wf(),
            n1 < 16,
        ensures
            final(self).drawn() == old(self).drawn(),
            final(self).wf(),
            pressed == any_pressed(old(self)@.keys),
            final(self)@ == if pressed {
                old(self)@.with_reg(n1 as int, first_pressed(old(self)@.keys) as u8)
            } else {
                old(self)@
            },
    {
        let mut k: usize = 0;
        while k < self.keys.len()
            invariant
                self.drawn() == old(self).drawn(),
                0 <= k <= self.keys.len(),
                n1 < 16,
                old(self).wf(),
                self@ == old(self)@,
                forall|j: int| 0 <= j < k ==> !#[trigger] self@.keys[j],
            decreases self.keys.len() - k,
        {
            if self.keys[k] {
                proof {
                    let keys = self@.keys;
                    assert(is_first_pressed(keys, k as int));
                    let c = first_pressed(keys);
                    assert(is_first_pressed(keys, c));
                    if c < k {
                        assert(!keys[c]);
                    }
                    if c > k {
                        assert(!keys[k as int]);
                    }
                    assert(c == k);
                }
                self.set_reg(n1, k as u8);
                return true;
            }
            k = k + 1;
        }
        false
    }

    /// `Fx15`: `delay timer = Vx`.
    fn ld_todelay(&mut self, n1: u8)
        requires
            old(self).wf(),
            n1 < 16,
        ensures
            final(self).drawn() == old(self).drawn(),
            final(self).wf(),
            final(self)@ == (Chip8State { delay: old(self)@.vx(n1), ..old(self)@ }),
    {
        let vx = self.get_reg(n1);
        self.delay = vx;
    }

    /// `Fx1E`: `I += Vx`.
    fn add_i(&mut self, n1: u8)
        requires
            old(self).wf(),
            n1 < 16,
            old(self)@.i + old(self)@.vx(n1) <= u16::MAX,
        ensures
            final(self).drawn() == old(self).drawn(),
            final(self).wf(),
            final(self)@ == (Chip8State {
                i: (old(self)@.i + old(self)@.vx(n1)) as u16,
                ..old(self)@
            }),
    {
        let vx = self.get_reg(n1);
        self.i += vx as u16;
    }

    /// `Fx29`: `I = ` the font sprite of digit `Vx` (five bytes per digit).
    fn ld_d_i(&mut self, n1: u8)
        requires
            old(self).wf(),
            n1 < 16,
        ensures
            final(self).drawn() == old(self).drawn(),
            final(self).wf(),
            final(self)@ == (Chip8State { i: (old(self)@.vx(n1) * 5) as u16, ..old(self)@ }),
    {
        let vx = self.get_reg(n1);
        self.i = vx as u16 * 5;
    }

    /// `Fx33`: the decimal digits of `Vx` at `I`, `I + 1`, `I + 2`.
    fn bcd(&mut self, n1: u8)
        requires
            old(self).wf(),
            n1 < 16,
            old(self)@.i + 2 < MEMORY_SIZE,
        ensures
            final(self).drawn() == old(self).drawn(),
            final(self).wf(),
            final(self)@ == old(self)@.bcd(n1),
    {
        let vx = self.get_reg(n1);
        let i = self.i as usize;
        self.memory.set(i, vx / 100);
        let r = vx % 100;
        self.memory.set(i + 1, r / 10);
        self.memory.set(i + 2, r % 10);
    }

    /// `Fx55`: store `V0..=Vx` at `I`, advancing `I` past them.
    fn ld_i_vx(&mut self, n1: u8)
        requires
            old(self).wf(),
            n1 < 16,
            old(self)@.i + n1 < MEMORY_SIZE,
        ensures
            final(self).drawn() == old(self).drawn(),
            final(self).wf(),
            final(self)@ == old(self)@.store_regs(n1),
    {
        let ghost s0 = old(self)@;
        let mut k: u8 = 0;
        assert(s0.memory =~= Seq::new(
            s0.memory.len(),
            |m: int|
                if s0.i <= m < s0.i + 0 {
                    s0.reg[m - s0.i]
                } else {
                    s0.memory[m]
                },
        ));
        while k <= n1
            invariant
                self.drawn() == old(self).drawn(),
                0 <= k <= n1 + 1,
                n1 < 16,
                s0 == old(self)@,
                s0.wf(),
                s0.i + n1 < MEMORY_SIZE,
                self.wf(),
                self@ == (Chip8State {
                    memory: Seq::new(
                        s0.memory.len(),
                        |m: int|
                            if s0.i <= m < s0.i + k {
                                s0.reg[m - s0.i]
                            } else {
                                s0.memory[m]
                            },
                    ),
                    i: (s0.i + k) as u16,
                    ..s0
                }),
            decreases n1 + 1 - k,
        {
            let vx = self.get_reg(k);
            self.memory.set(self.i as usize, vx);
            self.i += 1;
            k = k + 1;
            assert(self@.memory =~= Seq::new(
                s0.memory.len(),
                |m: int|
                    if s0.i <= m < s0.i + k {
                        s0.reg[m - s0.i]
                    } else {
                        s0.memory[m]
                    },
            ));
        }
        assert(self@.memory =~= s0.store_regs(n1).memory);
    }

    /// `Fx65`: load `V0..=Vx` from `I`, advancing `I` past them.
    fn ld_vx_i(&mut self, n1: u8)
        requires
            old(self).wf(),
            n1 < 16,
            old(self)@.i + n1 < MEMORY_SIZE,
        ensures
            final(self).drawn() == old(self).drawn(),
            final(self).wf(),
            final(self)@ == old(self)@.load_regs(n1),
    {
        let ghost s0 = old(self)@;
        let mut k: u8 = 0;
        assert(s0.reg =~= Seq::new(
            s0.reg.len(),
            |m: int|
                if m < 0 {
                    s0.memory[s0.i + m]
                } else {
                    s0.reg[m]
                },
        ));
        while k <= n1
            invariant
                self.drawn() == old(self).drawn(),
                0 <= k <= n1 + 1,
                n1 < 16,
                s0 == old(self)@,
                s0.wf(),
                s0.i + n1 < MEMORY_SIZE,
                self.wf(),
                self@ == (Chip8State {
                    reg: Seq::new(
                        s0.reg.len(),
                        |m: int|
                            if m < k {
                                s0.memory[s0.i + m]
                            } else {
                                s0.reg[m]
                            },
                    ),
                    i: (s0.i + k) as u16,
                    ..s0
                }),
            decreases n1 + 1 - k,
        {
            self.set_reg(k, self.memory[self.i as usize]);
            self.i += 1;
            k = k + 1;
            assert(self@.reg =~= Seq::new(
                s0.reg.len(),
                |m: int|
                    if m < k {
                        s0.memory[s0.i + m]
                    } else {
                        s0.reg[m]
                    },
            ));
        }
        assert(self@.reg =~= s0.load_regs(n1).reg);
    }

    /// `Dxyn`: XOR the `n`-row sprite at `I` onto the screen at `(Vx, Vy)`, clipped at the
    /// edges, with `VF = 1` when a lit pixel was turned off. It waits for a shown frame:
    /// without one nothing changes and `false` is returned; with one the frame is consumed.
    fn drw(&mut self, n1: u8, n2: u8, n3: u8) -> (drawn: bool)
        requires
            old(self).wf(),
            n1 < 16,
            n2 < 16,
            n3 < 16,
            old(self)@.vblank && sprite_rows(old(self)@, n2, n3) > 0 ==> old(self)@.i
                + sprite_rows(old(self)@, n2, n3) <= MEMORY_SIZE,
        ensures
            final(self).drawn() == old(self).drawn(),
            final(self).wf(),
            drawn == old(self)@.vblank,
            final(self)@ == if drawn {
                old(self)@.draw(n1, n2, n3)
            } else {
                old(self)@
            },
    {
        if !self.vblank {
            return false;
        }
        let ghost s0 = self@;
        let x = self.get_reg(n1) % (WIDTH as u8);
        let y = self.get_reg(n2) % (HEIGHT as u8);
        let rows: usize = if (n3 as usize) < HEIGHT - y as usize {
            n3 as usize
        } else {
            HEIGHT - y as usize
        };
        let cols: usize = if 8 < WIDTH - x as usize {
            8
        } else {
            WIDTH - x as usize
        };
        let ghost x0 = x as int;
        let ghost y0 = y as int;
        assert(x0 == sprite_x(s0, n1) && y0 == sprite_y(s0, n2));
        assert(rows == sprite_rows(s0, n2, n3) && cols == sprite_cols(s0, n1));
        assert(self@.screen =~= partial_screen(s0, x0, y0, cols as int, 0, 0));
        let mut c: u8 = 0;
        let mut a: usize = 0;
        while a < rows
            invariant
                self.drawn() == old(self).drawn(),
                s0.wf(),
                s0.vblank,
                s0 == old(self)@,
                0 <= a <= rows,
                rows as int == sprite_rows(s0, n2, n3),
                cols as int == sprite_cols(s0, n1),
                x0 == x,
                y0 == y,
                x0 == sprite_x(s0, n1),
                y0 == sprite_y(s0, n2),
                rows > 0 ==> s0.i + rows <= MEMORY_SIZE,
                self.wf(),
                self@ == (Chip8State {
                    screen: partial_screen(s0, x0, y0, cols as int, a as int, 0),
                    ..s0
                }),
                c == flag(partial_hit(s0, x0, y0, cols as int, a as int, 0)),
            decreases rows - a,
        {
            let v = self.memory[self.i as usize + a];
            let mut col: usize = 0;
            while col < cols
                invariant
                    self.drawn() == old(self).drawn(),
                    s0.wf(),
                    s0 == old(self)@,
                    0 <= a < rows,
                    0 <= col <= cols,
                    rows as int == sprite_rows(s0, n2, n3),
                    cols as int == sprite_cols(s0, n1),
                    x0 == x,
                    y0 == y,
                    x0 == sprite_x(s0, n1),
                    y0 == sprite_y(s0, n2),
                    s0.i + rows <= MEMORY_SIZE,
                    v == s0.memory[s0.i + a],
                    self.wf(),
                    self@ == (Chip8State {
                        screen: partial_screen(s0, x0, y0, cols as int, a as int, col as int),
                        ..s0
                    }),
                    c == flag(partial_hit(s0, x0, y0, cols as int, a as int, col as int)),
                decreases cols - col,
            {
                let sa = (y as usize + a) * WIDTH + (x as usize + col);
                proof {
                    lemma_cell(y0 + a, x0 + col);
                }
                let m: u8 = 0x80u8 >> (col as u8);
                let px = self.screen[sa];
                let va = v & m;
                proof {
                    lemma_bit_test(v, col as u8);
                    assert(sprite_pixel(s0.memory, s0.i as int, x0, y0, sa as int) == (va == m));
                    assert(!processed(sa as int, x0, y0, cols as int, a as int, col as int));
                    assert(px == s0.screen[sa as int]);
                }
                if px == OFF_COLOR && va == m || px == ON_COLOR && va != m {
                    self.screen.set(sa, ON_COLOR);
                } else {
                    self.screen.set(sa, OFF_COLOR);
                }
                if px == ON_COLOR && self.screen[sa] == OFF_COLOR {
                    c = 1;
                }
                proof {
                    lemma_partial_step(s0, x0, y0, cols as int, a as int, col as int);
                }
                col = col + 1;
            }
            proof {
                lemma_partial_row(s0, x0, y0, cols as int, a as int);
            }
            a = a + 1;
        }
        proof {
            lemma_partial_done(s0, n1, n2, n3);
        }
        self.set_reg(0xF, c);
        self.vblank = false;
        true
    }
}

/// Whether screen cell `p` has been handled once `a` whole sprite rows and then `col`
/// pixels of row `a` have been drawn.
spec fn processed(p: int, x0: int, y0: int, cols: int, a: int, col: int) -> bool {
    let px = p % (WIDTH as int);
    let py = p / (WIDTH as int);
    &&& x0 <= px < x0 + cols
    &&& (y0 <= py < y0 + a || (py == y0 + a && px < x0 + col))
}

spec fn partial_screen(s0: Chip8State, x0: int, y0: int, cols: int, a: int, col: int) -> Seq<
    u32,
> {
    Seq::new(
        s0.screen.len(),
        |p: int|
            if processed(p, x0, y0, cols, a, col) && sprite_pixel(s0.memory, s0.i as int, x0, y0, p) {
                toggled(s0.screen[p])
            } else {
                s0.screen[p]
            },
    )
}

spec fn hit_at(s0: Chip8State, x0: int, y0: int, cols: int, a: int, col: int, p: int) -> bool {
    &&& 0 <= p < s0.screen.len()
    &&& processed(p, x0, y0, cols, a, col)
    &&& sprite_pixel(s0.memory, s0.i as int, x0, y0, p)
    &&& s0.screen[p] == ON_COLOR
}

spec fn partial_hit(s0: Chip8State, x0: int, y0: int, cols: int, a: int, col: int) -> bool {
    exists|p: int| hit_at(s0, x0, y0, cols, a, col, p)
}

/// Cell `r * WIDTH + c` is at row `r`, column `c`, and every cell is so written.
pub(crate) proof fn lemma_cell(r: int, c: int)
    requires
        0 <= r,
        0 <= c < WIDTH,
    ensures
        (r * WIDTH + c) / (WIDTH as int) == r,
        (r * WIDTH + c) % (WIDTH as int) == c,
        forall|p: int|
            0 <= p ==> #[trigger] (p / (WIDTH as int)) * WIDTH + p % (WIDTH as int) == p,
{
    assert((r * 64 + c) / 64 == r) by (nonlinear_arith)
        requires
            0 <= r,
            0 <= c < 64,
    ;
    assert((r * 64 + c) % 64 == c) by (nonlinear_arith)
        requires
            0 <= r,
            0 <= c < 64,
    ;
    assert forall|p: int| 0 <= p implies #[trigger] (p / (WIDTH as int)) * WIDTH + p % (
    WIDTH as int) == p by {
        assert((p / 64) * 64 + p % 64 == p) by (nonlinear_arith);
    }
}

proof fn lemma_bit_test(v: u8, col: u8)
    requires
        col < 8,
    ensures
        (v & (0x80u8 >> col) == 0x80u8 >> col) == (v & (0x80u8 >> col) != 0),
{
    assert((v & (0x80u8 >> col) == 0x80u8 >> col) == (v & (0x80u8 >> col) != 0)) by (bit_vector)
        requires
            col < 8,
    ;
}

/// Drawing one more pixel, cell `sa`, changes only that cell, and adds a hit exactly when it
/// turns a lit cell off.
proof fn lemma_partial_step(s0: Chip8State, x0: int, y0: int, cols: int, a: int, col: int)
    requires
        s0.wf(),
        0 <= x0,
        x0 + cols <= WIDTH,
        0 <= y0,
        0 <= a,
        y0 + a < HEIGHT,
        0 <= col < cols,
    ensures
        ({
            let sa = (y0 + a) * WIDTH + x0 + col;
            let bit = sprite_pixel(s0.memory, s0.i as int, x0, y0, sa);
            &&& 0 <= sa < s0.screen.len()
            &&& partial_screen(s0, x0, y0, cols, a, col + 1) == partial_screen(
                s0,
                x0,
                y0,
                cols,
                a,
                col,
            ).update(
                sa,
                if bit {
                    toggled(s0.screen[sa])
                } else {
                    s0.screen[sa]
                },
            )
            &&& partial_hit(s0, x0, y0, cols, a, col + 1) == (partial_hit(
                s0,
                x0,
                y0,
                cols,
                a,
                col,
            ) || (bit && s0.screen[sa] == ON_COLOR))
        }),
{
    let sa = (y0 + a) * WIDTH + x0 + col;
    lemma_cell(y0 + a, x0 + col);
    assert forall|p: int| 0 <= p < s0.screen.len() && p != sa implies processed(
        p,
        x0,
        y0,
        cols,
        a,
        col + 1,
    ) == processed(p, x0, y0, cols, a, col) by {
        assert((p / (WIDTH as int)) * WIDTH + p % (WIDTH as int) == p);
    }
    assert(partial_screen(s0, x0, y0, cols, a, col + 1) =~= partial_screen(
        s0,
        x0,
        y0,
        cols,
        a,
        col,
    ).update(
        sa,
        if sprite_pixel(s0.memory, s0.i as int, x0, y0, sa) {
            toggled(s0.screen[sa])
        } else {
            s0.screen[sa]
        },
    ));
    let col1 = col + 1;
    if partial_hit(s0, x0, y0, cols, a, col1) {
        let p = choose|p: int| hit_at(s0, x0, y0, cols, a, col1, p);
        if p != sa {
            assert(hit_at(s0, x0, y0, cols, a, col, p));
        }
    }
    if partial_hit(s0, x0, y0, cols, a, col) {
        let p = choose|p: int| hit_at(s0, x0, y0, cols, a, col, p);
        assert(hit_at(s0, x0, y0, cols, a, col + 1, p));
    }
    if sprite_pixel(s0.memory, s0.i as int, x0, y0, sa) && s0.screen[sa] == ON_COLOR {
        assert(hit_at(s0, x0, y0, cols, a, col + 1, sa));
    }
}

/// Finishing row `a` is starting row `a + 1`.
proof fn lemma_partial_row(s0: Chip8State, x0: int, y0: int, cols: int, a: int)
    requires
        0 <= a,
    ensures
        partial_screen(s0, x0, y0, cols, a, cols) == partial_screen(s0, x0, y0, cols, a + 1, 0),
        partial_hit(s0, x0, y0, cols, a, cols) == partial_hit(s0, x0, y0, cols, a + 1, 0),
{
    assert(partial_screen(s0, x0, y0, cols, a, cols) =~= partial_screen(
        s0,
        x0,
        y0,
        cols,
        a + 1,
        0,
    ));
    if partial_hit(s0, x0, y0, cols, a, cols) {
        let p = choose|p: int| hit_at(s0, x0, y0, cols, a, cols, p);
        assert(hit_at(s0, x0, y0, cols, a + 1, 0, p));
    }
    let a1 = a + 1;
    if partial_hit(s0, x0, y0, cols, a1, 0) {
        let p = choose|p: int| hit_at(s0, x0, y0, cols, a1, 0, p);
        assert(hit_at(s0, x0, y0, cols, a, cols, p));
    }
}

/// Once every row is drawn, the screen and the collision flag are those of `Dxyn`.
proof fn lemma_partial_done(s0: Chip8State, x: u8, y: u8, n: u8)
    ensures
        partial_screen(
            s0,
            sprite_x(s0, x),
            sprite_y(s0, y),
            sprite_cols(s0, x),
            sprite_rows(s0, y, n),
            0,
        ) == drawn_screen(s0, x, y, n),
        partial_hit(
            s0,
            sprite_x(s0, x),
            sprite_y(s0, y),
            sprite_cols(s0, x),
            sprite_rows(s0, y, n),
            0,
        ) == collides(s0, x, y, n),
{
    let x0 = sprite_x(s0, x);
    let y0 = sprite_y(s0, y);
    let cols = sprite_cols(s0, x);
    let rows = sprite_rows(s0, y, n);
    assert(partial_screen(s0, x0, y0, cols, rows, 0) =~= drawn_screen(s0, x, y, n));
    if partial_hit(s0, x0, y0, cols, rows, 0) {
        let p = choose|p: int| hit_at(s0, x0, y0, cols, rows, 0, p);
        assert(sprite_hit(s0, x, y, n, p));
    }
    if collides(s0, x, y, n) {
        let p = choose|p: int| sprite_hit(s0, x, y, n, p);
        assert(hit_at(s0, x0, y0, cols, rows, 0, p));
    }
}

/// The address computed from three nibbles is `n1 n2 n3` read as a 12-bit number.
proof fn lemma_address(n1: u8, n2: u8, n3: u8)
    requires
        n1 < 16,
        n2 < 16,
        n3 < 16,
    ensures
        ((n1 as u16) << 8) | (n2 << 4 | n3) as u16 == address(n1, n2, n3),
{
    assert(((n1 as u16) << 8) | (n2 << 4 | n3) as u16 == n1 as u16 * 256 + n2 as u16 * 16
        + n3 as u16) by (bit_vector)
        requires
            n1 < 16,
            n2 < 16,
            n3 < 16,
    ;
}

/// The nibbles of a byte, as the decoder extracts them.
proof fn lemma_nibbles(b: u8)
    ensures
        (b & 0xF0) >> 4 == b / 16,
        b & 0x0F == b % 16,
{
    assert((b & 0xF0) >> 4 == b / 16) by (bit_vector);
    assert(b & 0x0F == b % 16) by (bit_vector);
}

proof fn lemma_shift_right_one(v: u8)
    ensures
        v >> 1 == v / 2,
        (v & 0x01 == 1) == (v % 2 == 1),
{
    assert(v >> 1 == v / 2) by (bit_vector);
    assert((v & 0x01 == 1) == (v % 2 == 1)) by (bit_vector);
}

proof fn lemma_shift_left_one(v: u8)
    ensures
        v << 1 == (v * 2) % 256,
        (v & 0x80 == 0x80) == (v >= 128),
{
    assert(v << 1 == (v * 2) % 256) by (bit_vector);
    assert((v & 0x80 == 0x80) == (v >= 128)) by (bit_vector);
}

} // verus!
