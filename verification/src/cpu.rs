//! The interpreter: fetch, decode, execute, tick.
//!
//! `CPU` owns the whole machine state.  Its view is the ghost `isa::State`,
//! and every cycle is proved to satisfy `isa::cycle_rel`: each opcode
//! handler's postcondition is exactly the `isa::instr_tr` transition for
//! its instruction.  A driver loads a program once, then calls
//! `execute_cycle` repeatedly, pacing itself to the nominal 60 Hz timer
//! rate; reported faults are never fatal.

use vstd::prelude::*;

use crate::display::Display;
use crate::isa::{
    cycle_rel, decode, fetched, initial_ram, instr_oob, instr_tr, op_addr, op_kk, op_n, op_x,
    op_y, tick, zero_regs, zero_stack, Chip8Error, Instr, State,
};
use crate::keypad::Keypad;

verus! {

pub struct CPU {
    ram: Vec<u8>,
    pc: usize,
    i: u16,
    stack: Vec<u16>,
    sp: usize,
    delay_timer: u8,
    sound_timer: u8,
    registers: Vec<u8>,
    opcode: u16,
    pub keypad: Keypad,
    display: Display,
}

impl View for CPU {
    type V = State;

    closed spec fn view(&self) -> State {
        State {
            ram: self.ram@,
            pc: self.pc as int,
            i: self.i as int,
            stack: self.stack@,
            sp: self.sp as int,
            dt: self.delay_timer,
            st: self.sound_timer,
            regs: self.registers@,
            screen: self.display@,
            keys: self.keypad@,
        }
    }
}

/// Relies on rand::random: a byte drawn from the thread-local generator.
/// Nothing is assumed about its value; callers state what holds of every
/// possible byte.
#[verifier::external_body]
fn random_byte() -> u8 {
    rand::random::<u8>()
}

fn zero_bytes(n: usize) -> (v: Vec<u8>)
    ensures
        v@ == Seq::new(n as nat, |j: int| 0u8),
{
    let mut v: Vec<u8> = Vec::new();
    let mut j: usize = 0;
    while j < n
        invariant
            j <= n,
            v@.len() == j,
            forall|m: int| 0 <= m < j ==> v@[m] == 0u8,
        decreases n - j,
    {
        v.push(0u8);
        j = j + 1;
    }
    proof {
        assert(v@ =~= Seq::new(n as nat, |j: int| 0u8));
    }
    v
}

/// The 80-byte font table as an executable vector; see `isa::fontset`.
fn fontset_bytes() -> (v: Vec<u8>)
    ensures
        v@ == crate::isa::fontset(),
{
    let table: [u8; 80] = [
        0xF0, 0x90, 0x90, 0x90, 0xF0, 0x20, 0x60, 0x20, 0x20, 0x70, 0xF0, 0x10, 0xF0, 0x80,
        0xF0, 0xF0, 0x10, 0xF0, 0x10, 0xF0, 0x90, 0x90, 0xF0, 0x10, 0x10, 0xF0, 0x80, 0xF0,
        0x10, 0xF0, 0xF0, 0x80, 0xF0, 0x90, 0xF0, 0xF0, 0x10, 0x20, 0x40, 0x40, 0xF0, 0x90,
        0xF0, 0x90, 0xF0, 0xF0, 0x90, 0xF0, 0x10, 0xF0, 0xF0, 0x90, 0xF0, 0x90, 0x90, 0xE0,
        0x90, 0xE0, 0x90, 0xE0, 0xF0, 0x80, 0x80, 0x80, 0xF0, 0xE0, 0x90, 0x90, 0x90, 0xE0,
        0xF0, 0x80, 0xF0, 0x80, 0xF0, 0xF0, 0x80, 0xF0, 0x80, 0x80,
    ];
    let mut v: Vec<u8> = Vec::new();
    let mut j: usize = 0;
    while j < 80
        invariant
            j <= 80,
            v@.len() == j,
            table@ == crate::isa::fontset(),
            forall|m: int| 0 <= m < j ==> v@[m] == table@[m],
        decreases 80 - j,
    {
        v.push(table[j]);
        j = j + 1;
    }
    proof {
        assert(v@ =~= crate::isa::fontset());
    }
    v
}

impl CPU {
    pub open spec fn wf(&self) -> bool {
        crate::isa::wf_state(self@)
    }

    /// A freshly constructed machine: zeroed memory with the font table in
    /// the reserved low region, program counter at 0x200, everything else
    /// cleared; the screen is taken over as the given display left it.
    pub fn new(display: Display) -> (c: CPU)
        requires
            display.wf(),
        ensures
            c.wf(),
            c@ == (State {
                ram: initial_ram(),
                pc: 0x200,
                i: 0,
                stack: zero_stack(),
                sp: 0,
                dt: 0,
                st: 0,
                regs: zero_regs(),
                screen: display@,
                keys: crate::keypad::blank_keys(),
            }),
    {
        let mut ram = zero_bytes(4096);
        let font = fontset_bytes();
        let mut j: usize = 0;
        while j < 80
            invariant
                j <= 80,
                ram@.len() == 4096,
                font@ == crate::isa::fontset(),
                forall|m: int| 0 <= m < j ==> ram@[0x50 + m] == font@[m],
                forall|m: int| 0 <= m < 4096 && !(0x50 <= m < 0x50 + j) ==> ram@[m] == 0u8,
            decreases 80 - j,
        {
            ram.set(0x50 + j, font[j]);
            j = j + 1;
        }
        let mut stack: Vec<u16> = Vec::new();
        let mut registers: Vec<u8> = Vec::new();
        let mut m: usize = 0;
        while m < 16
            invariant
                m <= 16,
                stack@.len() == m,
                registers@.len() == m,
                forall|k: int| 0 <= k < m ==> stack@[k] == 0u16,
                forall|k: int| 0 <= k < m ==> registers@[k] == 0u8,
            decreases 16 - m,
        {
            stack.push(0u16);
            registers.push(0u8);
            m = m + 1;
        }
        let cpu = CPU {
            ram,
            pc: 0x200,
            i: 0,
            stack,
            sp: 0,
            delay_timer: 0,
            sound_timer: 0,
            registers,
            opcode: 0,
            keypad: Keypad::new(),
            display,
        };
        proof {
            assert(cpu@.ram =~= initial_ram());
            assert(cpu@.stack =~= zero_stack());
            assert(cpu@.regs =~= zero_regs());
            assert(cpu@ =~= (State {
                ram: initial_ram(),
                pc: 0x200,
                i: 0,
                stack: zero_stack(),
                sp: 0,
                dt: 0,
                st: 0,
                regs: zero_regs(),
                screen: display@,
                keys: crate::keypad::blank_keys(),
            }));
        }
        cpu
    }

    /// Copy a program image into memory at 0x200.  An image larger than
    /// the remaining address space is truncated and reported.
    pub fn load_program(&mut self, program: &Vec<u8>) -> (r: Result<(), Chip8Error>)
        requires
            old(self).wf(),
        ensures
            final(self).wf(),
            final(self)@ == (State {
                ram: Seq::new(4096, |a: int|
                    if 0x200 <= a < 0x200 + spec_loaded_len(program@) {
                        program@[a - 0x200]
                    } else {
                        old(self)@.ram[a]
                    }),
                ..old(self)@
            }),
            r == (if program@.len() > 3584 {
                Err::<(), Chip8Error>(Chip8Error::ProgramTooLarge)
            } else {
                Ok::<(), Chip8Error>(())
            }),
    {
        let n: usize = if program.len() > 3584 { 3584 } else { program.len() };
        let mut j: usize = 0;
        while j < n
            invariant
                old(self).wf(),
                self.wf(),
                j <= n,
                n == spec_loaded_len(program@),
                n <= program@.len(),
                self@ == (State {
                    ram: Seq::new(4096, |a: int|
                        if 0x200 <= a < 0x200 + j {
                            program@[a - 0x200]
                        } else {
                            old(self)@.ram[a]
                        }),
                    ..old(self)@
                }),
            decreases n - j,
        {
            self.ram.set(0x200 + j, program[j]);
            j = j + 1;
            proof {
                assert(self@.ram =~= Seq::new(4096, |a: int|
                    if 0x200 <= a < 0x200 + j {
                        program@[a - 0x200]
                    } else {
                        old(self)@.ram[a]
                    }));
                assert(self@ =~= (State {
                    ram: Seq::new(4096, |a: int|
                        if 0x200 <= a < 0x200 + j {
                            program@[a - 0x200]
                        } else {
                            old(self)@.ram[a]
                        }),
                    ..old(self)@
                }));
            }
        }
        if program.len() > 3584 {
            Err(Chip8Error::ProgramTooLarge)
        } else {
            Ok(())
        }
    }

    fn x(&self) -> (r: usize)
        ensures
            r == op_x(self.opcode),
            r < 16,
    {
        ((self.opcode as usize) / 0x100) % 0x10
    }

    fn y(&self) -> (r: usize)
        ensures
            r == op_y(self.opcode),
            r < 16,
    {
        ((self.opcode as usize) / 0x10) % 0x10
    }

    fn imm(&self) -> (r: u8)
        ensures
            r == op_kk(self.opcode),
    {
        (self.opcode % 0x100) as u8
    }

    fn addr(&self) -> (r: usize)
        ensures
            r == op_addr(self.opcode),
            r < 0x1000,
    {
        (self.opcode as usize) % 0x1000
    }

    fn n(&self) -> (r: usize)
        ensures
            r == op_n(self.opcode),
            r < 16,
    {
        (self.opcode as usize) % 0x10
    }
}

impl CPU {
    /// Clear the screen.
    fn CLS(&mut self)
        requires
            old(self).wf(),
        ensures
            final(self).wf(),
            final(self)@ == instr_tr(old(self)@, Instr::Cls, 0),
    {
        self.display.clear();
    }

    /// Return: pop the stack into the program counter.
    fn RET(&mut self) -> (r: Result<(), Chip8Error>)
        requires
            old(self).wf(),
        ensures
            final(self).wf(),
            final(self)@ == instr_tr(old(self)@, Instr::Ret, 0),
            r == (if instr_oob(old(self)@, Instr::Ret) {
                Err::<(), Chip8Error>(Chip8Error::OutOfBounds)
            } else {
                Ok::<(), Chip8Error>(())
            }),
    {
        if self.sp == 0 {
            return Err(Chip8Error::OutOfBounds);
        }
        self.sp = self.sp - 1;
        self.pc = self.stack[self.sp] as usize;
        Ok(())
    }

    /// Jump to the address field.
    fn JP(&mut self)
        requires
            old(self).wf(),
        ensures
            final(self).wf(),
            final(self)@ == instr_tr(old(self)@, Instr::Jp { addr: op_addr(old(self).opcode) }, 0),
    {
        self.pc = self.addr();
    }

    /// Call: push the return address, jump to the address field.
    fn CALL(&mut self) -> (r: Result<(), Chip8Error>)
        requires
            old(self).wf(),
        ensures
            final(self).wf(),
            final(self)@ == instr_tr(
                old(self)@,
                Instr::Call { addr: op_addr(old(self).opcode) },
                0,
            ),
            r == (if instr_oob(old(self)@, Instr::Call { addr: op_addr(old(self).opcode) }) {
                Err::<(), Chip8Error>(Chip8Error::OutOfBounds)
            } else {
                Ok::<(), Chip8Error>(())
            }),
    {
        if self.sp >= 16 {
            return Err(Chip8Error::OutOfBounds);
        }
        let a = self.addr();
        self.stack.set(self.sp, self.pc as u16);
        self.sp = self.sp + 1;
        self.pc = a;
        Ok(())
    }

    /// Skip the next instruction if Vx equals the immediate byte.
    fn SEI(&mut self)
        requires
            old(self).wf(),
            old(self).pc <= 4096,
        ensures
            final(self).wf(),
            final(self)@ == instr_tr(
                old(self)@,
                Instr::SeImm { x: op_x(old(self).opcode), k: op_kk(old(self).opcode) },
                0,
            ),
    {
        let xi = self.x();
        if self.registers[xi] == self.imm() {
            self.pc = self.pc + 2;
        }
    }

    /// Skip the next instruction if Vx differs from the immediate byte.
    fn SNEI(&mut self)
        requires
            old(self).wf(),
            old(self).pc <= 4096,
        ensures
            final(self).wf(),
            final(self)@ == instr_tr(
                old(self)@,
                Instr::SneImm { x: op_x(old(self).opcode), k: op_kk(old(self).opcode) },
                0,
            ),
    {
        let xi = self.x();
        if self.registers[xi] != self.imm() {
            self.pc = self.pc + 2;
        }
    }

    /// Skip the next instruction if Vx equals Vy.
    fn SER(&mut self)
        requires
            old(self).wf(),
            old(self).pc <= 4096,
        ensures
            final(self).wf(),
            final(self)@ == instr_tr(
                old(self)@,
                Instr::SeReg { x: op_x(old(self).opcode), y: op_y(old(self).opcode) },
                0,
            ),
    {
        let xi = self.x();
        let yi = self.y();
        if self.registers[xi] == self.registers[yi] {
            self.pc = self.pc + 2;
        }
    }

    /// Load the immediate byte into Vx.
    fn LDI(&mut self)
        requires
            old(self).wf(),
        ensures
            final(self).wf(),
            final(self)@ == instr_tr(
                old(self)@,
                Instr::LdImm { x: op_x(old(self).opcode), k: op_kk(old(self).opcode) },
                0,
            ),
    {
        let xi = self.x();
        let k = self.imm();
        self.registers.set(xi, k);
    }

    /// Add the immediate byte to Vx, wrapping; no carry flag.
    fn ADDI(&mut self)
        requires
            old(self).wf(),
        ensures
            final(self).wf(),
            final(self)@ == instr_tr(
                old(self)@,
                Instr::AddImm { x: op_x(old(self).opcode), k: op_kk(old(self).opcode) },
                0,
            ),
    {
        let xi = self.x();
        let t: u16 = self.registers[xi] as u16 + self.imm() as u16;
        self.registers.set(xi, (t % 256) as u8);
    }

    /// Copy Vy into Vx.
    fn LDR(&mut self)
        requires
            old(self).wf(),
        ensures
            final(self).wf(),
            final(self)@ == instr_tr(
                old(self)@,
                Instr::LdReg { x: op_x(old(self).opcode), y: op_y(old(self).opcode) },
                0,
            ),
    {
        let xi = self.x();
        let yi = self.y();
        let v = self.registers[yi];
        self.registers.set(xi, v);
    }

    /// Bitwise OR of Vx and Vy into Vx.
    fn OR(&mut self)
        requires
            old(self).wf(),
        ensures
            final(self).wf(),
            final(self)@ == instr_tr(
                old(self)@,
                Instr::Or { x: op_x(old(self).opcode), y: op_y(old(self).opcode) },
                0,
            ),
    {
        let xi = self.x();
        let yi = self.y();
        let v = self.registers[xi] | self.registers[yi];
        self.registers.set(xi, v);
    }

    /// Bitwise AND of Vx and Vy into Vx.
    fn AND(&mut self)
        requires
            old(self).wf(),
        ensures
            final(self).wf(),
            final(self)@ == instr_tr(
                old(self)@,
                Instr::And { x: op_x(old(self).opcode), y: op_y(old(self).opcode) },
                0,
            ),
    {
        let xi = self.x();
        let yi = self.y();
        let v = self.registers[xi] & self.registers[yi];
        self.registers.set(xi, v);
    }

    /// Bitwise XOR of Vx and Vy into Vx.
    fn XOR(&mut self)
        requires
            old(self).wf(),
        ensures
            final(self).wf(),
            final(self)@ == instr_tr(
                old(self)@,
                Instr::Xor { x: op_x(old(self).opcode), y: op_y(old(self).opcode) },
                0,
            ),
    {
        let xi = self.x();
        let yi = self.y();
        let v = self.registers[xi] ^ self.registers[yi];
        self.registers.set(xi, v);
    }

    /// Add Vy to Vx, wrapping; VF becomes the carry bit.
    fn ADDR(&mut self)
        requires
            old(self).wf(),
        ensures
            final(self).wf(),
            final(self)@ == instr_tr(
                old(self)@,
                Instr::AddReg { x: op_x(old(self).opcode), y: op_y(old(self).opcode) },
                0,
            ),
    {
        let xi = self.x();
        let yi = self.y();
        let sum: u16 = self.registers[xi] as u16 + self.registers[yi] as u16;
        self.registers.set(xi, (sum % 256) as u8);
        self.registers.set(0xF, if sum >= 256 { 1 } else { 0 });
    }

    /// Vx minus Vy, wrapping; VF is 1 exactly when Vx > Vy (NOT borrow).
    fn SUB(&mut self)
        requires
            old(self).wf(),
        ensures
            final(self).wf(),
            final(self)@ == instr_tr(
                old(self)@,
                Instr::Sub { x: op_x(old(self).opcode), y: op_y(old(self).opcode) },
                0,
            ),
    {
        let xi = self.x();
        let yi = self.y();
        let a = self.registers[xi];
        let c = self.registers[yi];
        self.registers.set(0xF, if a > c { 1 } else { 0 });
        self.registers.set(xi, ((a as u16 + 256 - c as u16) % 256) as u8);
    }

    /// Shift Vx right one bit; VF captures the bit shifted out.
    fn SHR(&mut self)
        requires
            old(self).wf(),
        ensures
            final(self).wf(),
            final(self)@ == instr_tr(old(self)@, Instr::Shr { x: op_x(old(self).opcode) }, 0),
    {
        let xi = self.x();
        let v = self.registers[xi];
        self.registers.set(0xF, v % 2);
        self.registers.set(xi, v / 2);
    }

    /// Vy minus Vx into Vx, wrapping; VF is 1 exactly when Vy > Vx.
    fn SUBN(&mut self)
        requires
            old(self).wf(),
        ensures
            final(self).wf(),
            final(self)@ == instr_tr(
                old(self)@,
                Instr::Subn { x: op_x(old(self).opcode), y: op_y(old(self).opcode) },
                0,
            ),
    {
        let xi = self.x();
        let yi = self.y();
        let a = self.registers[xi];
        let c = self.registers[yi];
        self.registers.set(0xF, if c > a { 1 } else { 0 });
        self.registers.set(xi, ((c as u16 + 256 - a as u16) % 256) as u8);
    }

    /// Shift Vx left one bit, wrapping; VF captures the bit shifted out.
    fn SHL(&mut self)
        requires
            old(self).wf(),
        ensures
            final(self).wf(),
            final(self)@ == instr_tr(old(self)@, Instr::Shl { x: op_x(old(self).opcode) }, 0),
    {
        let xi = self.x();
        let v = self.registers[xi];
        self.registers.set(0xF, v / 128);
        self.registers.set(xi, ((v as u16 * 2) % 256) as u8);
    }

    /// Skip the next instruction if Vx differs from Vy.
    fn SNER(&mut self)
        requires
            old(self).wf(),
            old(self).pc <= 4096,
        ensures
            final(self).wf(),
            final(self)@ == instr_tr(
                old(self)@,
                Instr::SneReg { x: op_x(old(self).opcode), y: op_y(old(self).opcode) },
                0,
            ),
    {
        let xi = self.x();
        let yi = self.y();
        if self.registers[xi] != self.registers[yi] {
            self.pc = self.pc + 2;
        }
    }

    /// Load the address field into the index register.
    fn LDIN(&mut self)
        requires
            old(self).wf(),
        ensures
            final(self).wf(),
            final(self)@ == instr_tr(
                old(self)@,
                Instr::LdIdx { addr: op_addr(old(self).opcode) },
                0,
            ),
    {
        self.i = self.addr() as u16;
    }

    /// Jump to the address field plus V0.
    fn JPA(&mut self)
        requires
            old(self).wf(),
        ensures
            final(self).wf(),
            final(self)@ == instr_tr(
                old(self)@,
                Instr::JpV0 { addr: op_addr(old(self).opcode) },
                0,
            ),
    {
        self.pc = self.addr() + self.registers[0] as usize;
    }

    /// Load a fresh random byte ANDed with the immediate byte into Vx.
    fn RND(&mut self)
        requires
            old(self).wf(),
        ensures
            final(self).wf(),
            exists|b: u8|
                final(self)@ == #[trigger] instr_tr(
                    old(self)@,
                    Instr::Rnd { x: op_x(old(self).opcode), k: op_kk(old(self).opcode) },
                    b,
                ),
    {
        let xi = self.x();
        let k = self.imm();
        let b = random_byte();
        self.registers.set(xi, b & k);
        proof {
            assert(self@ == instr_tr(
                old(self)@,
                Instr::Rnd { x: op_x(old(self).opcode), k: op_kk(old(self).opcode) },
                b,
            ));
        }
    }

    /// Skip the next instruction if the key named by Vx is down.
    fn SKP(&mut self)
        requires
            old(self).wf(),
            old(self).pc <= 4096,
        ensures
            final(self).wf(),
            final(self)@ == instr_tr(old(self)@, Instr::Skp { x: op_x(old(self).opcode) }, 0),
    {
        let xi = self.x();
        let key = (self.registers[xi] % 16) as usize;
        if self.keypad.is_pressed(key) {
            self.pc = self.pc + 2;
        }
    }

    /// Skip the next instruction if the key named by Vx is up.
    fn SKNP(&mut self)
        requires
            old(self).wf(),
            old(self).pc <= 4096,
        ensures
            final(self).wf(),
            final(self)@ == instr_tr(old(self)@, Instr::Sknp { x: op_x(old(self).opcode) }, 0),
    {
        let xi = self.x();
        let key = (self.registers[xi] % 16) as usize;
        if !self.keypad.is_pressed(key) {
            self.pc = self.pc + 2;
        }
    }

    /// Read the delay timer into Vx.
    fn LDDT(&mut self)
        requires
            old(self).wf(),
        ensures
            final(self).wf(),
            final(self)@ == instr_tr(old(self)@, Instr::LdDt { x: op_x(old(self).opcode) }, 0),
    {
        let xi = self.x();
        let v = self.delay_timer;
        self.registers.set(xi, v);
    }

    /// Wait for a key: if one is down, store it in Vx; otherwise step the
    /// program counter back so the same instruction runs again next cycle.
    fn STK(&mut self)
        requires
            old(self).wf(),
            old(self).pc >= 2,
        ensures
            final(self).wf(),
            final(self)@ == instr_tr(old(self)@, Instr::WaitKey { x: op_x(old(self).opcode) }, 0),
    {
        let xi = self.x();
        match self.keypad.wait_for_keypress() {
            Some(val) => {
                self.registers.set(xi, val);
            },
            None => {
                self.pc = self.pc - 2;
            },
        }
    }

    /// Set the delay timer from Vx.
    fn SDT(&mut self)
        requires
            old(self).wf(),
        ensures
            final(self).wf(),
            final(self)@ == instr_tr(old(self)@, Instr::SetDt { x: op_x(old(self).opcode) }, 0),
    {
        let xi = self.x();
        self.delay_timer = self.registers[xi];
    }

    /// Set the sound timer from Vx.
    fn SST(&mut self)
        requires
            old(self).wf(),
        ensures
            final(self).wf(),
            final(self)@ == instr_tr(old(self)@, Instr::SetSt { x: op_x(old(self).opcode) }, 0),
    {
        let xi = self.x();
        self.sound_timer = self.registers[xi];
    }

    /// Add Vx to the index register, wrapping at 16 bits; no flag.
    fn ADDIN(&mut self)
        requires
            old(self).wf(),
        ensures
            final(self).wf(),
            final(self)@ == instr_tr(old(self)@, Instr::AddIdx { x: op_x(old(self).opcode) }, 0),
    {
        let xi = self.x();
        self.i = ((self.i as u32 + self.registers[xi] as u32) % 0x10000) as u16;
    }

    /// Point the index register at the font glyph for the low nibble of Vx.
    fn SFT(&mut self)
        requires
            old(self).wf(),
        ensures
            final(self).wf(),
            final(self)@ == instr_tr(old(self)@, Instr::LdFont { x: op_x(old(self).opcode) }, 0),
    {
        let xi = self.x();
        let d = self.registers[xi] % 16;
        self.i = 0x50 + 5 * (d as u16);
    }
}

impl CPU {
    /// Draw the n-row sprite at memory[I..I+n] at (Vx mod 64, Vy mod 32);
    /// VF reports a collision.  A sprite that would be read from past the
    /// end of memory is a bounds fault and nothing is drawn.
    fn DRW(&mut self) -> (r: Result<(), Chip8Error>)
        requires
            old(self).wf(),
        ensures
            final(self).wf(),
            final(self)@ == instr_tr(
                old(self)@,
                Instr::Drw {
                    x: op_x(old(self).opcode),
                    y: op_y(old(self).opcode),
                    n: op_n(old(self).opcode),
                },
                0,
            ),
            r == (if instr_oob(
                old(self)@,
                Instr::Drw {
                    x: op_x(old(self).opcode),
                    y: op_y(old(self).opcode),
                    n: op_n(old(self).opcode),
                },
            ) {
                Err::<(), Chip8Error>(Chip8Error::OutOfBounds)
            } else {
                Ok::<(), Chip8Error>(())
            }),
    {
        let n = self.n();
        let from = self.i as usize;
        if from + n > 4096 {
            return Err(Chip8Error::OutOfBounds);
        }
        let mut sprite: Vec<u8> = Vec::new();
        proof {
            assert(sprite@ =~= self@.ram.subrange(from as int, from as int));
        }
        let mut j: usize = 0;
        while j < n
            invariant
                j <= n,
                from + n <= 4096,
                self.wf(),
                sprite@ == self@.ram.subrange(from as int, from as int + j as int),
            decreases n - j,
        {
            let b = self.ram[from + j];
            sprite.push(b);
            j = j + 1;
            proof {
                assert(self@.ram.subrange(from as int, from as int + j as int) =~= self@.ram
                    .subrange(from as int, from as int + j - 1).push(b));
            }
        }
        let xi = self.x();
        let yi = self.y();
        let sx = (self.registers[xi] % 64) as usize;
        let sy = (self.registers[yi] % 32) as usize;
        let collided = self.display.draw_sprite(sx, sy, &sprite);
        self.registers.set(0xF, if collided { 1 } else { 0 });
        proof {
            assert(self@ =~= instr_tr(
                old(self)@,
                Instr::Drw {
                    x: op_x(old(self).opcode),
                    y: op_y(old(self).opcode),
                    n: op_n(old(self).opcode),
                },
                0,
            ));
        }
        Ok(())
    }

    /// Store the three decimal digits of Vx at memory[I..I+3].
    fn BCD(&mut self) -> (r: Result<(), Chip8Error>)
        requires
            old(self).wf(),
        ensures
            final(self).wf(),
            final(self)@ == instr_tr(old(self)@, Instr::Bcd { x: op_x(old(self).opcode) }, 0),
            r == (if instr_oob(old(self)@, Instr::Bcd { x: op_x(old(self).opcode) }) {
                Err::<(), Chip8Error>(Chip8Error::OutOfBounds)
            } else {
                Ok::<(), Chip8Error>(())
            }),
    {
        if self.i > 4093 {
            return Err(Chip8Error::OutOfBounds);
        }
        let xi = self.x();
        let v = self.registers[xi];
        let base = self.i as usize;
        self.ram.set(base, v / 100);
        self.ram.set(base + 1, (v / 10) % 10);
        self.ram.set(base + 2, v % 10);
        Ok(())
    }

    /// Store registers V0..Vx inclusive into memory starting at I.
    fn ST(&mut self) -> (r: Result<(), Chip8Error>)
        requires
            old(self).wf(),
        ensures
            final(self).wf(),
            final(self)@ == instr_tr(old(self)@, Instr::StRegs { x: op_x(old(self).opcode) }, 0),
            r == (if instr_oob(old(self)@, Instr::StRegs { x: op_x(old(self).opcode) }) {
                Err::<(), Chip8Error>(Chip8Error::OutOfBounds)
            } else {
                Ok::<(), Chip8Error>(())
            }),
    {
        let xi = self.x();
        let base = self.i as usize;
        if base + xi > 4095 {
            return Err(Chip8Error::OutOfBounds);
        }
        proof {
            assert(self@ =~= (State {
                ram: Seq::new(4096, |a: int|
                    if base <= a < base { old(self)@.regs[a - base] } else { old(self)@.ram[a] }),
                ..old(self)@
            }));
        }
        let mut j: usize = 0;
        while j <= xi
            invariant
                old(self).wf(),
                self.wf(),
                xi < 16,
                base + xi <= 4095,
                j <= xi + 1,
                self@ == (State {
                    ram: Seq::new(4096, |a: int|
                        if base <= a < base + j {
                            old(self)@.regs[a - base]
                        } else {
                            old(self)@.ram[a]
                        }),
                    ..old(self)@
                }),
            decreases xi + 1 - j,
        {
            let v = self.registers[j];
            self.ram.set(base + j, v);
            j = j + 1;
            proof {
                assert(self@.ram =~= Seq::new(4096, |a: int|
                    if base <= a < base + j {
                        old(self)@.regs[a - base]
                    } else {
                        old(self)@.ram[a]
                    }));
                assert(self@ =~= (State {
                    ram: Seq::new(4096, |a: int|
                        if base <= a < base + j {
                            old(self)@.regs[a - base]
                        } else {
                            old(self)@.ram[a]
                        }),
                    ..old(self)@
                }));
            }
        }
        proof {
            assert(self@.ram =~= instr_tr(
                old(self)@,
                Instr::StRegs { x: op_x(old(self).opcode) },
                0,
            ).ram);
            assert(self@ =~= instr_tr(old(self)@, Instr::StRegs { x: op_x(old(self).opcode) }, 0));
        }
        Ok(())
    }

    /// Load registers V0..Vx inclusive from memory starting at I.
    fn LD(&mut self) -> (r: Result<(), Chip8Error>)
        requires
            old(self).wf(),
        ensures
            final(self).wf(),
            final(self)@ == instr_tr(old(self)@, Instr::LdRegs { x: op_x(old(self).opcode) }, 0),
            r == (if instr_oob(old(self)@, Instr::LdRegs { x: op_x(old(self).opcode) }) {
                Err::<(), Chip8Error>(Chip8Error::OutOfBounds)
            } else {
                Ok::<(), Chip8Error>(())
            }),
    {
        let xi = self.x();
        let base = self.i as usize;
        if base + xi > 4095 {
            return Err(Chip8Error::OutOfBounds);
        }
        proof {
            assert(self@ =~= (State {
                regs: Seq::new(16, |m: int|
                    if 0 <= m < 0 { old(self)@.ram[base + m] } else { old(self)@.regs[m] }),
                ..old(self)@
            }));
        }
        let mut j: usize = 0;
        while j <= xi
            invariant
                old(self).wf(),
                self.wf(),
                xi < 16,
                base + xi <= 4095,
                j <= xi + 1,
                self@ == (State {
                    regs: Seq::new(16, |m: int|
                        if 0 <= m < j {
                            old(self)@.ram[base + m]
                        } else {
                            old(self)@.regs[m]
                        }),
                    ..old(self)@
                }),
            decreases xi + 1 - j,
        {
            let v = self.ram[base + j];
            self.registers.set(j, v);
            j = j + 1;
            proof {
                assert(self@.regs =~= Seq::new(16, |m: int|
                    if 0 <= m < j {
                        old(self)@.ram[base + m]
                    } else {
                        old(self)@.regs[m]
                    }));
                assert(self@ =~= (State {
                    regs: Seq::new(16, |m: int|
                        if 0 <= m < j {
                            old(self)@.ram[base + m]
                        } else {
                            old(self)@.regs[m]
                        }),
                    ..old(self)@
                }));
            }
        }
        proof {
            assert(self@.regs =~= instr_tr(
                old(self)@,
                Instr::LdRegs { x: op_x(old(self).opcode) },
                0,
            ).regs);
            assert(self@ =~= instr_tr(old(self)@, Instr::LdRegs { x: op_x(old(self).opcode) }, 0));
        }
        Ok(())
    }

    /// The report for an instruction word that decodes to nothing.
    fn illegal_op(&self) -> (e: Chip8Error)
        requires
            self.pc >= 2,
        ensures
            e == (Chip8Error::IllegalInstruction {
                opcode: self.opcode,
                addr: (self.pc - 2) as usize,
            }),
    {
        Chip8Error::IllegalInstruction { opcode: self.opcode, addr: self.pc - 2 }
    }

    /// Both countdown timers lose one if nonzero, saturating at zero.
    fn tick_timers(&mut self)
        ensures
            final(self)@ == tick(old(self)@),
    {
        if self.delay_timer > 0 {
            self.delay_timer = self.delay_timer - 1;
        }
        if self.sound_timer > 0 {
            self.sound_timer = self.sound_timer - 1;
        }
    }

    /// Dispatch on the fetched instruction word, already past the fetch
    /// advance, and run its handler; an undefined word changes nothing and
    /// is reported.
    fn execute(&mut self) -> (r: Result<(), Chip8Error>)
        requires
            old(self).wf(),
            2 <= old(self).pc <= 4096,
        ensures
            final(self).wf(),
            decode(old(self).opcode) is None ==> final(self)@ == old(self)@ && r == Err::<
                (),
                Chip8Error,
            >(Chip8Error::IllegalInstruction {
                opcode: old(self).opcode,
                addr: (old(self).pc - 2) as usize,
            }),
            decode(old(self).opcode) matches Some(inst) ==> (exists|b: u8|
                final(self)@ == #[trigger] instr_tr(old(self)@, inst, b)) && r == (
            if instr_oob(old(self)@, inst) {
                Err::<(), Chip8Error>(Chip8Error::OutOfBounds)
            } else {
                Ok::<(), Chip8Error>(())
            }),
    {
        let op = self.opcode;
        let hi = op / 0x1000;
        if hi == 0x0 {
            if op == 0x00E0 {
                self.CLS();
                Ok(())
            } else if op == 0x00EE {
                self.RET()
            } else {
                Err(self.illegal_op())
            }
        } else if hi == 0x1 {
            self.JP();
            Ok(())
        } else if hi == 0x2 {
            self.CALL()
        } else if hi == 0x3 {
            self.SEI();
            Ok(())
        } else if hi == 0x4 {
            self.SNEI();
            Ok(())
        } else if hi == 0x5 {
            if op % 0x10 == 0x0 {
                self.SER();
                Ok(())
            } else {
                Err(self.illegal_op())
            }
        } else if hi == 0x6 {
            self.LDI();
            Ok(())
        } else if hi == 0x7 {
            self.ADDI();
            Ok(())
        } else if hi == 0x8 {
            let low = op % 0x10;
            if low == 0x0 {
                self.LDR();
                Ok(())
            } else if low == 0x1 {
                self.OR();
                Ok(())
            } else if low == 0x2 {
                self.AND();
                Ok(())
            } else if low == 0x3 {
                self.XOR();
                Ok(())
            } else if low == 0x4 {
                self.ADDR();
                Ok(())
            } else if low == 0x5 {
                self.SUB();
                Ok(())
            } else if low == 0x6 {
                self.SHR();
                Ok(())
            } else if low == 0x7 {
                self.SUBN();
                Ok(())
            } else if low == 0xE {
                self.SHL();
                Ok(())
            } else {
                Err(self.illegal_op())
            }
        } else if hi == 0x9 {
            if op % 0x10 == 0x0 {
                self.SNER();
                Ok(())
            } else {
                Err(self.illegal_op())
            }
        } else if hi == 0xA {
            self.LDIN();
            Ok(())
        } else if hi == 0xB {
            self.JPA();
            Ok(())
        } else if hi == 0xC {
            self.RND();
            Ok(())
        } else if hi == 0xD {
            self.DRW()
        } else if hi == 0xE {
            let low = op % 0x100;
            if low == 0x9E {
                self.SKP();
                Ok(())
            } else if low == 0xA1 {
                self.SKNP();
                Ok(())
            } else {
                Err(self.illegal_op())
            }
        } else {
            let low = op % 0x100;
            if low == 0x07 {
                self.LDDT();
                Ok(())
            } else if low == 0x0A {
                self.STK();
                Ok(())
            } else if low == 0x15 {
                self.SDT();
                Ok(())
            } else if low == 0x18 {
                self.SST();
                Ok(())
            } else if low == 0x1E {
                self.ADDIN();
                Ok(())
            } else if low == 0x29 {
                self.SFT();
                Ok(())
            } else if low == 0x33 {
                self.BCD()
            } else if low == 0x55 {
                self.ST()
            } else if low == 0x65 {
                self.LD()
            } else {
                Err(self.illegal_op())
            }
        }
    }

    /// One whole cycle: bounds-checked fetch, advance, decode, execute,
    /// then tick both timers.  The reference timer cadence is 60 ticks a
    /// second; pacing the calls is the driver's job.  The outcome relates
    /// to the states exactly as `isa::cycle_rel` states.
    pub fn execute_cycle(&mut self) -> (r: Result<(), Chip8Error>)
        requires
            old(self).wf(),
        ensures
            final(self).wf(),
            cycle_rel(old(self)@, final(self)@, r),
    {
        if self.pc + 1 >= 4096 {
            return Err(Chip8Error::OutOfBounds);
        }
        let w: u16 = (self.ram[self.pc] as u16) * 256 + (self.ram[self.pc + 1] as u16);
        self.opcode = w;
        self.pc = self.pc + 2;
        proof {
            assert(w == fetched(old(self)@));
            assert(self@ =~= (State { pc: old(self)@.pc + 2, ..old(self)@ }));
        }
        let r = self.execute();
        let ghost mid: State = self@;
        self.tick_timers();
        proof {
            let pre = old(self)@;
            let s1 = State { pc: pre.pc + 2, ..pre };
            if decode(w) is Some {
                let inst = decode(w).unwrap();
                let b = choose|b: u8| mid == #[trigger] instr_tr(s1, inst, b);
                assert(self@ == tick(instr_tr(s1, inst, b)));
            }
            assert(cycle_rel(pre, self@, r));
        }
        r
    }

    /// General register Vx.
    pub fn reg(&self, x: usize) -> (r: u8)
        requires
            self.wf(),
            x < 16,
        ensures
            r == self@.regs[x as int],
    {
        self.registers[x]
    }

    /// The program counter.
    pub fn pc(&self) -> (r: usize)
        ensures
            r == self@.pc,
    {
        self.pc
    }

    /// The index register.
    pub fn index(&self) -> (r: u16)
        ensures
            r == self@.i,
    {
        self.i
    }

    /// The delay timer.
    pub fn delay(&self) -> (r: u8)
        ensures
            r == self@.dt,
    {
        self.delay_timer
    }

    /// The sound timer; a driver plays sound while it is nonzero.
    pub fn sound(&self) -> (r: u8)
        ensures
            r == self@.st,
    {
        self.sound_timer
    }

    /// The memory byte at `a`.
    pub fn mem(&self, a: usize) -> (r: u8)
        requires
            self.wf(),
            a < 4096,
        ensures
            r == self@.ram[a as int],
    {
        self.ram[a]
    }

    /// The screen pixel at column `x`, row `y`.
    pub fn pixel(&self, x: usize, y: usize) -> (r: bool)
        requires
            self.wf(),
            x < 64,
            y < 32,
        ensures
            r == self@.screen[y * 64 + x],
    {
        self.display.pixel(x, y)
    }
}

/// How many bytes of an image fit below the end of memory.
pub open spec fn spec_loaded_len(program: Seq<u8>) -> int {
    if program.len() > 3584 {
        3584
    } else {
        program.len() as int
    }
}

} // verus!
