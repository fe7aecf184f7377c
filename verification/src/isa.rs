//! The instruction-set semantics, stated over a ghost machine state.
//!
//! `decode` turns a 16-bit instruction word into a tagged instruction
//! variant, `instr_tr` is the pure transition function of one executed
//! instruction, and `cycle_rel` ties a whole fetch-decode-execute-tick
//! cycle of the interpreter to its observable outcome.  The executable
//! interpreter in `cpu` is proved against these functions.

use vstd::prelude::*;

use crate::display::{blank_screen, collides, drawn};
use crate::keypad::first_pressed;

verus! {

/// The machine state the instruction set acts on: 4096 bytes of memory, the
/// program counter, the 16-bit index register, a 16-entry call stack with
/// its stack pointer, the two countdown timers, the 16 general registers,
/// the 64x32 screen and the 16 key states.
#[verifier::ext_equal]
pub ghost struct State {
    pub ram: Seq<u8>,
    pub pc: int,
    pub i: int,
    pub stack: Seq<u16>,
    pub sp: int,
    pub dt: u8,
    pub st: u8,
    pub regs: Seq<u8>,
    pub screen: Seq<bool>,
    pub keys: Seq<bool>,
}

pub open spec fn wf_state(s: State) -> bool {
    &&& s.ram.len() == 4096
    &&& 0 <= s.pc <= 0xFFFF
    &&& 0 <= s.i <= 0xFFFF
    &&& s.stack.len() == 16
    &&& 0 <= s.sp <= 16
    &&& s.regs.len() == 16
    &&& s.screen.len() == 2048
    &&& s.keys.len() == 16
}

/// Reported interpreter faults.  None is fatal: the faulting operation is
/// skipped and execution may continue.
#[derive(Clone, Copy, PartialEq, Eq, Debug)]
pub enum Chip8Error {
    /// The instruction word matches no defined opcode; the word and the
    /// address it was fetched from are reported.
    IllegalInstruction { opcode: u16, addr: usize },
    /// A fetch, memory block, sprite read or stack operation would leave
    /// the machine's bounds.
    OutOfBounds,
    /// The loaded image does not fit between 0x200 and the end of memory.
    ProgramTooLarge,
}

/// The decoded instruction set, one variant per defined opcode.
pub ghost enum Instr {
    Cls,
    Ret,
    Jp { addr: int },
    Call { addr: int },
    SeImm { x: int, k: u8 },
    SneImm { x: int, k: u8 },
    SeReg { x: int, y: int },
    LdImm { x: int, k: u8 },
    AddImm { x: int, k: u8 },
    LdReg { x: int, y: int },
    Or { x: int, y: int },
    And { x: int, y: int },
    Xor { x: int, y: int },
    AddReg { x: int, y: int },
    Sub { x: int, y: int },
    Shr { x: int },
    Subn { x: int, y: int },
    Shl { x: int },
    SneReg { x: int, y: int },
    LdIdx { addr: int },
    JpV0 { addr: int },
    Rnd { x: int, k: u8 },
    Drw { x: int, y: int, n: int },
    Skp { x: int },
    Sknp { x: int },
    LdDt { x: int },
    WaitKey { x: int },
    SetDt { x: int },
    SetSt { x: int },
    AddIdx { x: int },
    LdFont { x: int },
    Bcd { x: int },
    StRegs { x: int },
    LdRegs { x: int },
}

/// Register field x: the second nibble of the word.
pub open spec fn op_x(op: u16) -> int {
    ((op as int) / 0x100) % 0x10
}

/// Register field y: the third nibble of the word.
pub open spec fn op_y(op: u16) -> int {
    ((op as int) / 0x10) % 0x10
}

/// The immediate byte: the low byte of the word.
pub open spec fn op_kk(op: u16) -> u8 {
    ((op as int) % 0x100) as u8
}

/// The 12-bit address field.
pub open spec fn op_addr(op: u16) -> int {
    (op as int) % 0x1000
}

/// The low nibble.
pub open spec fn op_n(op: u16) -> int {
    (op as int) % 0x10
}

/// Decode an instruction word; `None` is an illegal instruction.
pub open spec fn decode(op: u16) -> Option<Instr> {
    let hi = (op as int) / 0x1000;
    let x = op_x(op);
    let y = op_y(op);
    let k = op_kk(op);
    let a = op_addr(op);
    let n = op_n(op);
    let low = (op as int) % 0x100;
    if hi == 0x0 {
        if op == 0x00E0 {
            Some(Instr::Cls)
        } else if op == 0x00EE {
            Some(Instr::Ret)
        } else {
            None
        }
    } else if hi == 0x1 {
        Some(Instr::Jp { addr: a })
    } else if hi == 0x2 {
        Some(Instr::Call { addr: a })
    } else if hi == 0x3 {
        Some(Instr::SeImm { x, k })
    } else if hi == 0x4 {
        Some(Instr::SneImm { x, k })
    } else if hi == 0x5 {
        if n == 0x0 {
            Some(Instr::SeReg { x, y })
        } else {
            None
        }
    } else if hi == 0x6 {
        Some(Instr::LdImm { x, k })
    } else if hi == 0x7 {
        Some(Instr::AddImm { x, k })
    } else if hi == 0x8 {
        if n == 0x0 {
            Some(Instr::LdReg { x, y })
        } else if n == 0x1 {
            Some(Instr::Or { x, y })
        } else if n == 0x2 {
            Some(Instr::And { x, y })
        } else if n == 0x3 {
            Some(Instr::Xor { x, y })
        } else if n == 0x4 {
            Some(Instr::AddReg { x, y })
        } else if n == 0x5 {
            Some(Instr::Sub { x, y })
        } else if n == 0x6 {
            Some(Instr::Shr { x })
        } else if n == 0x7 {
            Some(Instr::Subn { x, y })
        } else if n == 0xE {
            Some(Instr::Shl { x })
        } else {
            None
        }
    } else if hi == 0x9 {
        if n == 0x0 {
            Some(Instr::SneReg { x, y })
        } else {
            None
        }
    } else if hi == 0xA {
        Some(Instr::LdIdx { addr: a })
    } else if hi == 0xB {
        Some(Instr::JpV0 { addr: a })
    } else if hi == 0xC {
        Some(Instr::Rnd { x, k })
    } else if hi == 0xD {
        Some(Instr::Drw { x, y, n })
    } else if hi == 0xE {
        if low == 0x9E {
            Some(Instr::Skp { x })
        } else if low == 0xA1 {
            Some(Instr::Sknp { x })
        } else {
            None
        }
    } else {
        if low == 0x07 {
            Some(Instr::LdDt { x })
        } else if low == 0x0A {
            Some(Instr::WaitKey { x })
        } else if low == 0x15 {
            Some(Instr::SetDt { x })
        } else if low == 0x18 {
            Some(Instr::SetSt { x })
        } else if low == 0x1E {
            Some(Instr::AddIdx { x })
        } else if low == 0x29 {
            Some(Instr::LdFont { x })
        } else if low == 0x33 {
            Some(Instr::Bcd { x })
        } else if low == 0x55 {
            Some(Instr::StRegs { x })
        } else if low == 0x65 {
            Some(Instr::LdRegs { x })
        } else {
            None
        }
    }
}

/// Whether the instruction faults on this state instead of acting.
/// Stack overflow and underflow are reported as bounds faults and the
/// operation is skipped, so a malformed program never corrupts memory.
pub open spec fn instr_oob(s: State, inst: Instr) -> bool {
    match inst {
        Instr::Ret => s.sp == 0,
        Instr::Call { .. } => s.sp >= 16,
        Instr::Drw { n, .. } => s.i + n > 4096,
        Instr::Bcd { .. } => s.i + 2 > 4095,
        Instr::StRegs { x } => s.i + x > 4095,
        Instr::LdRegs { x } => s.i + x > 4095,
        _ => false,
    }
}

/// The effect of one decoded instruction on the machine state.
///
/// `s` already has the program counter advanced past the instruction, so a
/// skip adds another 2 and the wait-for-key retreat subtracts 2.  `b` is
/// the byte drawn from the random source; only `Rnd` reads it.  A faulting
/// instruction (`instr_oob`) leaves the state unchanged.
pub open spec fn instr_tr(s: State, inst: Instr, b: u8) -> State {
    match inst {
        Instr::Cls => State { screen: blank_screen(), ..s },
        Instr::Ret => if s.sp == 0 {
            s
        } else {
            State { pc: s.stack[s.sp - 1] as int, sp: s.sp - 1, ..s }
        },
        Instr::Jp { addr } => State { pc: addr, ..s },
        Instr::Call { addr } => if s.sp >= 16 {
            s
        } else {
            State {
                stack: s.stack.update(s.sp, s.pc as u16),
                sp: s.sp + 1,
                pc: addr,
                ..s
            }
        },
        Instr::SeImm { x, k } => if s.regs[x] == k {
            State { pc: s.pc + 2, ..s }
        } else {
            s
        },
        Instr::SneImm { x, k } => if s.regs[x] != k {
            State { pc: s.pc + 2, ..s }
        } else {
            s
        },
        Instr::SeReg { x, y } => if s.regs[x] == s.regs[y] {
            State { pc: s.pc + 2, ..s }
        } else {
            s
        },
        Instr::LdImm { x, k } => State { regs: s.regs.update(x, k), ..s },
        Instr::AddImm { x, k } => State {
            regs: s.regs.update(x, ((s.regs[x] + k) % 256) as u8),
            ..s
        },
        Instr::LdReg { x, y } => State { regs: s.regs.update(x, s.regs[y]), ..s },
        Instr::Or { x, y } => State { regs: s.regs.update(x, s.regs[x] | s.regs[y]), ..s },
        Instr::And { x, y } => State { regs: s.regs.update(x, s.regs[x] & s.regs[y]), ..s },
        Instr::Xor { x, y } => State { regs: s.regs.update(x, s.regs[x] ^ s.regs[y]), ..s },
        Instr::AddReg { x, y } => {
            let sum = s.regs[x] + s.regs[y];
            State {
                regs: s.regs.update(x, (sum % 256) as u8).update(
                    0xF,
                    if sum >= 256 { 1u8 } else { 0u8 },
                ),
                ..s
            }
        },
        Instr::Sub { x, y } => {
            let a = s.regs[x];
            let c = s.regs[y];
            State {
                regs: s.regs.update(0xF, if a > c { 1u8 } else { 0u8 }).update(
                    x,
                    ((a + 256 - c) % 256) as u8,
                ),
                ..s
            }
        },
        Instr::Shr { x } => {
            let v = s.regs[x];
            State {
                regs: s.regs.update(0xF, (v % 2) as u8).update(x, (v / 2) as u8),
                ..s
            }
        },
        Instr::Subn { x, y } => {
            let a = s.regs[x];
            let c = s.regs[y];
            State {
                regs: s.regs.update(0xF, if c > a { 1u8 } else { 0u8 }).update(
                    x,
                    ((c + 256 - a) % 256) as u8,
                ),
                ..s
            }
        },
        Instr::Shl { x } => {
            let v = s.regs[x];
            State {
                regs: s.regs.update(0xF, (v / 128) as u8).update(x, ((v * 2) % 256) as u8),
                ..s
            }
        },
        Instr::SneReg { x, y } => if s.regs[x] != s.regs[y] {
            State { pc: s.pc + 2, ..s }
        } else {
            s
        },
        Instr::LdIdx { addr } => State { i: addr, ..s },
        Instr::JpV0 { addr } => State { pc: addr + s.regs[0], ..s },
        Instr::Rnd { x, k } => State { regs: s.regs.update(x, b & k), ..s },
        Instr::Drw { x, y, n } => if s.i + n > 4096 {
            s
        } else {
            let sx = s.regs[x] % 64;
            let sy = s.regs[y] % 32;
            let sprite = s.ram.subrange(s.i, s.i + n);
            State {
                screen: drawn(s.screen, sx as int, sy as int, sprite),
                regs: s.regs.update(
                    0xF,
                    if collides(s.screen, sx as int, sy as int, sprite) { 1u8 } else { 0u8 },
                ),
                ..s
            }
        },
        Instr::Skp { x } => if s.keys[(s.regs[x] % 16) as int] {
            State { pc: s.pc + 2, ..s }
        } else {
            s
        },
        Instr::Sknp { x } => if !s.keys[(s.regs[x] % 16) as int] {
            State { pc: s.pc + 2, ..s }
        } else {
            s
        },
        Instr::LdDt { x } => State { regs: s.regs.update(x, s.dt), ..s },
        Instr::WaitKey { x } => match first_pressed(s.keys) {
            Some(k) => State { regs: s.regs.update(x, k), ..s },
            None => State { pc: s.pc - 2, ..s },
        },
        Instr::SetDt { x } => State { dt: s.regs[x], ..s },
        Instr::SetSt { x } => State { st: s.regs[x], ..s },
        Instr::AddIdx { x } => State { i: (s.i + s.regs[x]) % 0x10000, ..s },
        Instr::LdFont { x } => State { i: 0x50 + 5 * (s.regs[x] % 16), ..s },
        Instr::Bcd { x } => if s.i + 2 > 4095 {
            s
        } else {
            let v = s.regs[x];
            State {
                ram: s.ram.update(s.i, (v / 100) as u8).update(
                    s.i + 1,
                    ((v / 10) % 10) as u8,
                ).update(s.i + 2, (v % 10) as u8),
                ..s
            }
        },
        Instr::StRegs { x } => if s.i + x > 4095 {
            s
        } else {
            State {
                ram: Seq::new(4096, |a: int|
                    if s.i <= a <= s.i + x {
                        s.regs[a - s.i]
                    } else {
                        s.ram[a]
                    }),
                ..s
            }
        },
        Instr::LdRegs { x } => if s.i + x > 4095 {
            s
        } else {
            State {
                regs: Seq::new(16, |j: int|
                    if 0 <= j <= x {
                        s.ram[s.i + j]
                    } else {
                        s.regs[j]
                    }),
                ..s
            }
        },
    }
}

/// One timer step: both countdown timers lose 1 if nonzero, saturating at 0.
pub open spec fn tick(s: State) -> State {
    State {
        dt: if s.dt > 0 { (s.dt - 1) as u8 } else { 0u8 },
        st: if s.st > 0 { (s.st - 1) as u8 } else { 0u8 },
        ..s
    }
}

/// The big-endian instruction word at the program counter.
pub open spec fn fetched(s: State) -> u16 {
    (s.ram[s.pc] * 256 + s.ram[s.pc + 1]) as u16
}

/// One whole interpreter cycle: fetch (bounds-checked), advance the program
/// counter by 2, decode, execute, then tick the timers.  Relates the state
/// before the cycle, the state after it, and the reported outcome.  The
/// existential byte is the value drawn from the random source.
pub open spec fn cycle_rel(pre: State, post: State, r: Result<(), Chip8Error>) -> bool {
    if pre.pc + 1 >= 4096 {
        post == pre && r == Err::<(), Chip8Error>(Chip8Error::OutOfBounds)
    } else {
        let w = fetched(pre);
        let s1 = State { pc: pre.pc + 2, ..pre };
        match decode(w) {
            None => {
                post == tick(s1) && r == Err::<(), Chip8Error>(
                    Chip8Error::IllegalInstruction { opcode: w, addr: pre.pc as usize },
                )
            },
            Some(inst) => {
                (exists|b: u8| post == tick(#[trigger] instr_tr(s1, inst, b))) && r == (
                    if instr_oob(s1, inst) {
                        Err::<(), Chip8Error>(Chip8Error::OutOfBounds)
                    } else {
                        Ok::<(), Chip8Error>(())
                    }
                )
            },
        }
    }
}

/// The 80-byte font table: glyphs for 0 through F, 5 rows each.
pub open spec fn fontset() -> Seq<u8> {
    seq![
        0xF0u8, 0x90, 0x90, 0x90, 0xF0, 0x20, 0x60, 0x20, 0x20, 0x70, 0xF0, 0x10, 0xF0, 0x80,
        0xF0, 0xF0, 0x10, 0xF0, 0x10, 0xF0, 0x90, 0x90, 0xF0, 0x10, 0x10, 0xF0, 0x80, 0xF0,
        0x10, 0xF0, 0xF0, 0x80, 0xF0, 0x90, 0xF0, 0xF0, 0x10, 0x20, 0x40, 0x40, 0xF0, 0x90,
        0xF0, 0x90, 0xF0, 0xF0, 0x90, 0xF0, 0x10, 0xF0, 0xF0, 0x90, 0xF0, 0x90, 0x90, 0xE0,
        0x90, 0xE0, 0x90, 0xE0, 0xF0, 0x80, 0x80, 0x80, 0xF0, 0xE0, 0x90, 0x90, 0x90, 0xE0,
        0xF0, 0x80, 0xF0, 0x80, 0xF0, 0xF0, 0x80, 0xF0, 0x80, 0x80,
    ]
}

/// Memory as construction leaves it: all zero but for the font table,
/// which sits in the reserved region at 0x50..0xA0.
pub open spec fn initial_ram() -> Seq<u8> {
    Seq::new(4096, |a: int|
        if 0x50 <= a < 0xA0 {
            fontset()[a - 0x50]
        } else {
            0u8
        })
}

pub open spec fn zero_regs() -> Seq<u8> {
    Seq::new(16, |j: int| 0u8)
}

pub open spec fn zero_stack() -> Seq<u16> {
    Seq::new(16, |j: int| 0u16)
}

/// A call followed by a return comes back exactly where the call left off:
/// the program counter and stack pointer are restored, registers, memory,
/// index and screen are untouched, and every stack entry below the old
/// pointer is preserved — so calls nest safely up to the 16-entry capacity.
/// `s` is the state with the program counter already advanced past the
/// call instruction, i.e. pointing at the instruction right after it.
pub proof fn lemma_call_then_ret(s: State, a: int)
    requires
        wf_state(s),
        s.sp < 16,
    ensures
        ({
            let t = instr_tr(s, Instr::Call { addr: a }, 0);
            let u = instr_tr(t, Instr::Ret, 0);
            &&& u.pc == s.pc
            &&& u.sp == s.sp
            &&& u.regs == s.regs
            &&& u.ram == s.ram
            &&& u.i == s.i
            &&& u.screen == s.screen
            &&& u.dt == s.dt
            &&& u.st == s.st
            &&& forall|k: int| 0 <= k < s.sp ==> u.stack[k] == s.stack[k]
        }),
{
}

/// Loading an immediate into a register and reading the register back
/// gives exactly that immediate, for every register and every byte.
pub proof fn lemma_ld_imm_reads_back(s: State, x: int, k: u8)
    requires
        wf_state(s),
        0 <= x < 16,
    ensures
        instr_tr(s, Instr::LdImm { x, k }, 0).regs[x] == k,
{
}

/// Register addition wraps modulo 256, and VF becomes the carry: 1 exactly
/// when the true sum reaches 256.  Holds for every pair of byte values.
/// When the destination is VF itself the flag write lands last, so only
/// the flag clause applies there.
pub proof fn lemma_add_reg_carry(s: State, x: int, y: int)
    requires
        wf_state(s),
        0 <= x < 16,
        0 <= y < 16,
    ensures
        ({
            let u = instr_tr(s, Instr::AddReg { x, y }, 0);
            &&& u.regs[0xF] == (if s.regs[x] + s.regs[y] >= 256 { 1u8 } else { 0u8 })
            &&& x != 0xF ==> u.regs[x] == (s.regs[x] + s.regs[y]) % 256
        }),
{
}

/// Subtraction sets VF to the NOT-borrow flag: 1 exactly when Vx > Vy,
/// and the difference wraps modulo 256.  The destination must not be VF
/// itself, which the stored difference would overwrite.
pub proof fn lemma_sub_not_borrow(s: State, x: int, y: int)
    requires
        wf_state(s),
        0 <= x < 16,
        0 <= y < 16,
        x != 0xF,
    ensures
        ({
            let u = instr_tr(s, Instr::Sub { x, y }, 0);
            &&& u.regs[0xF] == (if s.regs[x] > s.regs[y] { 1u8 } else { 0u8 })
            &&& u.regs[x] == (s.regs[x] + 256 - s.regs[y]) % 256
        }),
{
}

/// Both shifts capture the bit that falls off into VF and store the
/// shifted value, for every possible register value.  The destination
/// must not be VF itself, which the stored value would overwrite.
pub proof fn lemma_shifts_capture_bit(s: State, x: int)
    requires
        wf_state(s),
        0 <= x < 16,
        x != 0xF,
    ensures
        instr_tr(s, Instr::Shr { x }, 0).regs[0xF] == s.regs[x] % 2,
        instr_tr(s, Instr::Shr { x }, 0).regs[x] == s.regs[x] / 2,
        instr_tr(s, Instr::Shl { x }, 0).regs[0xF] == s.regs[x] / 128,
        instr_tr(s, Instr::Shl { x }, 0).regs[x] == (s.regs[x] * 2) % 256,
{
}

/// The 16 font glyphs live in distinct, non-overlapping 5-byte ranges,
/// all inside the reserved region that holds the font table.
pub proof fn lemma_font_ranges_disjoint(d1: int, d2: int)
    requires
        0 <= d1 < 16,
        0 <= d2 < 16,
        d1 != d2,
    ensures
        0x50 + 5 * d1 + 5 <= 0x50 + 5 * d2 || 0x50 + 5 * d2 + 5 <= 0x50 + 5 * d1,
        0x50 <= 0x50 + 5 * d1 && 0x50 + 5 * d1 + 5 <= 0xA0,
{
}

/// An illegal instruction word is reported, not fatal: the cycle changes
/// nothing but the fetch advance of the program counter and the timer tick.
pub proof fn lemma_illegal_is_noop(pre: State, post: State, r: Result<(), Chip8Error>)
    requires
        cycle_rel(pre, post, r),
        pre.pc + 1 < 4096,
        decode(fetched(pre)) is None,
    ensures
        post.regs == pre.regs,
        post.ram == pre.ram,
        post.stack == pre.stack,
        post.sp == pre.sp,
        post.i == pre.i,
        post.screen == pre.screen,
        post.keys == pre.keys,
        post.pc == pre.pc + 2,
        r == Err::<(), Chip8Error>(
            Chip8Error::IllegalInstruction { opcode: fetched(pre), addr: pre.pc as usize },
        ),
{
}

} // verus!
