use vstd::prelude::*;
use crate::instructions as op;
use crate::memory::{Memory, MemoryError, be16, hi_byte, lo_byte};
use crate::memory_map::{
    ADDRESS_SPACE, Device, DeviceView, MemoryMap, RegionView, drained, find_region,
    lemma_find_region_found, lemma_ram_write_u16, lemma_same_layout_find, map_read_u16,
    map_read_u8, map_write_u16, map_write_u8, pending_output, ram_word, same_layout,
};
use crate::registers::{
    ACC, AX, BX, CX, DX, EX, FP, FX, GX, HX, IP, REGISTER_COUNT, REGISTER_LEN, SP, address_of, is_half,
    register_address, register_id, register_index, register_size, size_of,
};
use crate::screen::{Screen, ScreenView};

verus! {

/// Why the CPU stopped.
#[derive(Debug, Clone, PartialEq, Eq)]
pub enum ExecutionError {
    InternalMemoryError(MemoryError),
    UnexpectedInstruction(u8),
    BadRegisterPtrLen,
    EndOfExecution,
    BadReturn,
}

/// Flag bit set when the last result was zero.
pub const F_ZERO: u8 = 1;
/// Flag bit set when the last result had its top bit set.
pub const F_NEG: u8 = 2;
/// Flag bit set when the last arithmetic overflowed.
pub const F_CARRY: u8 = 4;

/// Initial stack and frame pointer.
pub const STACK_TOP: u16 = 0xFFFE;

/// Base address of the screen in the address space.
pub const SCREEN_BASE: usize = 0x3000;
/// Columns of the screen.
pub const SCREEN_WIDTH: usize = 64;
/// Rows of the screen.
pub const SCREEN_HEIGHT: usize = 64;

/// `x` reduced into `u16`.
pub open spec fn wrap16(x: int) -> u16 {
    (x % 0x1_0000) as u16
}

/// Value `v` as register `r` holds it: an 8-bit register keeps the low byte.
pub open spec fn fit(r: int, v: u16) -> u16 {
    if size_of(r) == 1 { (v as int % 256) as u16 } else { v }
}

/// Flags for a result `v` of width 16 (`wide`) or 8 bits.
pub open spec fn flags_of(v: u16, wide: bool, carry: bool) -> u8 {
    ((if v == 0 { 1int } else { 0int })
        + (if (wide && v >= 0x8000) || (!wide && v >= 0x80) { 2int } else { 0int })
        + (if carry { 4int } else { 0int })) as u8
}

pub open spec fn zero_set(f: u8) -> bool {
    f % 2 == 1
}

pub open spec fn neg_set(f: u8) -> bool {
    (f / 2) % 2 == 1
}

pub open spec fn carry_set(f: u8) -> bool {
    (f / 4) % 2 == 1
}

/// Whether register `r` is 16 bits wide.
pub open spec fn wide(r: int) -> bool {
    size_of(r) == 2
}

/// Register saved by a call in position `k` (0 to 8): `AX..HX`, then `IP`.
pub open spec fn saved_reg(k: int) -> int {
    if k == 0 { AX as int }
    else if k == 1 { BX as int }
    else if k == 2 { CX as int }
    else if k == 3 { DX as int }
    else if k == 4 { EX as int }
    else if k == 5 { FX as int }
    else if k == 6 { GX as int }
    else if k == 7 { HX as int }
    else { IP as int }
}

/// Whether jump opcode `o` is taken under flags `f`.
pub open spec fn jump_taken(o: u8, f: u8) -> bool {
    let (z, n) = (zero_set(f), neg_set(f));
    if o == op::JEQ_LIT || o == op::JEQ_REG {
        z
    } else if o == op::JNE_LIT || o == op::JNE_REG {
        !z
    } else if o == op::JGT_LIT || o == op::JGT_REG {
        !z && !n
    } else if o == op::JGE_LIT || o == op::JGE_REG {
        !n
    } else if o == op::JLT_LIT || o == op::JLT_REG {
        !z && n
    } else if o == op::JLE_LIT || o == op::JLE_REG {
        n
    } else {
        true
    }
}

/// Operand layout of opcode `o`: how many operands follow it and, for each,
/// whether it is a 16-bit word (a literal or an address) or a register.
/// `None` for a byte that is no opcode.
pub open spec fn layout_of(o: u8) -> Option<(u8, bool, bool, bool)> {
    if o == op::MOV_LIT_REG || o == op::MOV_MEM_REG || o == op::SUB_LIT_REG {
        Some((2, true, false, false))
    } else if o == op::MOV_LIT_MEM8 || o == op::MOV_LIT_MEM16 {
        Some((2, true, true, false))
    } else if o == op::MOV_REG_REG || o == op::MOV_PTRREG_REG || o == op::MOV_REG_PTRREG
        || o == op::ADD_REG_REG || o == op::SUB_REG_REG || o == op::MUL_REG_REG
        || o == op::CMP_REG_REG {
        Some((2, false, false, false))
    } else if o == op::MOV_REG_MEM || o == op::ADD_REG_LIT || o == op::SUB_REG_LIT
        || o == op::MUL_REG_LIT || o == op::CMP_REG_LIT {
        Some((2, false, true, false))
    } else if o == op::MOV_LITOFF_REG {
        Some((3, true, false, false))
    } else if o == op::INC_REG || o == op::DEC_REG || o == op::NOT || o == op::PSH_REG
        || o == op::PSH_PTRREG8 || o == op::PSH_PTRREG16 || o == op::POP_REG
        || o == op::POP_PTRREG8 || o == op::POP_PTRREG16 || o == op::CALL_REG {
        Some((1, false, false, false))
    } else if o == op::PSH_LIT || o == op::PSH_MEM8 || o == op::PSH_MEM16 || o == op::POP_MEM8
        || o == op::POP_MEM16 || o == op::CALL_LIT {
        Some((1, true, false, false))
    } else if op::JMP_LIT <= o && o <= op::JLE_REG {
        if o % 2 == 0 { Some((1, true, false, false)) } else { Some((1, false, false, false)) }
    } else if op::LSF_REG_REG <= o && o <= op::XOR_REG_LIT {
        if o % 2 == 0 { Some((2, false, false, false)) } else { Some((2, false, true, false)) }
    } else if o == op::RET || o == op::END {
        Some((0, false, false, false))
    } else {
        None
    }
}

/// Opcode `o` uses a register as a pointer or an offset and that register
/// is a half: it stops with `BadRegisterPtrLen` before touching anything.
pub open spec fn pointer_fault(o: u8, x: u16, y: u16) -> bool {
    if o == op::MOV_REG_PTRREG || o == op::MOV_LITOFF_REG {
        !wide(y as int)
    } else if o == op::MOV_PTRREG_REG || o == op::PSH_PTRREG8 || o == op::PSH_PTRREG16
        || o == op::POP_PTRREG8 || o == op::POP_PTRREG16 || o == op::CALL_REG {
        !wide(x as int)
    } else {
        false
    }
}

/// Register operands of layout `l` name registers.
pub open spec fn regs_ok(l: (u8, bool, bool, bool), x: u16, y: u16, z: u16) -> bool {
    &&& (l.0 >= 1 && !l.1 ==> x < REGISTER_COUNT)
    &&& (l.0 >= 2 && !l.2 ==> y < REGISTER_COUNT)
    &&& (l.0 >= 3 && !l.3 ==> z < REGISTER_COUNT)
}

/// `r` with the flags set from `v` when it is `Ok`.
pub open spec fn then_flags(r: Result<CpuView, ExecutionError>, v: u16, wide: bool, carry: bool) -> Result<CpuView, ExecutionError> {
    match r {
        Ok(t) => Ok(t.with_flags(v, wide, carry)),
        Err(e) => Err(e),
    }
}

/// Address space `rs` after loading `bytes[..k]` at address 0, one byte at a
/// time; a byte that cannot be written is skipped.
pub open spec fn load(rs: Seq<RegionView>, bytes: Seq<u8>, k: nat) -> Seq<RegionView>
    decreases k,
{
    if k == 0 {
        rs
    } else {
        let prev = load(rs, bytes, (k - 1) as nat);
        match map_write_u8(prev, k - 1, bytes[k - 1]) {
            Ok(m) => m,
            Err(_) => prev,
        }
    }
}

/// State of a new machine: a zeroed RAM over the whole address space, the
/// screen in front of it at `SCREEN_BASE`, all registers zero but `SP` and
/// `FP`, which point at the top of the stack.
pub open spec fn initial_state() -> CpuView {
    CpuView {
        mem: seq![
            RegionView {
                device: DeviceView::Ram(Seq::new(ADDRESS_SPACE as nat, |i: int| 0u8)),
                start: 0,
                end: ADDRESS_SPACE as nat,
            },
            RegionView {
                device: DeviceView::Screen(ScreenView {
                    width: SCREEN_WIDTH as nat,
                    height: SCREEN_HEIGHT as nat,
                    row: 1,
                    out: Seq::empty(),
                }),
                start: SCREEN_BASE as nat,
                end: (SCREEN_BASE + SCREEN_WIDTH * SCREEN_HEIGHT) as nat,
            },
        ],
        regs: Seq::new(REGISTER_LEN as nat, |i: int| 0u8),
        sfs: 0,
        flags: 0,
    }.set_reg(SP as int, STACK_TOP).set_reg(FP as int, STACK_TOP)
}

/// Abstract state of the CPU.
pub ghost struct CpuView {
    pub mem: Seq<RegionView>,
    pub regs: Seq<u8>,
    pub sfs: u16,
    pub flags: u8,
}

impl CpuView {
    /// Value of register `r`; a half is zero-extended.
    pub open spec fn reg(self, r: int) -> u16 {
        let a = address_of(r) as int;
        if size_of(r) == 1 {
            self.regs[a] as u16
        } else {
            be16(self.regs[a], self.regs[a + 1])
        }
    }

    /// State with register `r` set to `v`; a half takes the low byte of `v`.
    pub open spec fn set_reg(self, r: int, v: u16) -> CpuView {
        let a = address_of(r) as int;
        if size_of(r) == 1 {
            CpuView { regs: self.regs.update(a, lo_byte(v)), ..self }
        } else {
            CpuView { regs: self.regs.update(a, hi_byte(v)).update(a + 1, lo_byte(v)), ..self }
        }
    }

    pub open spec fn with_flags(self, v: u16, wide: bool, carry: bool) -> CpuView {
        CpuView { flags: flags_of(v, wide, carry), ..self }
    }

    pub open spec fn with_sfs(self, sfs: u16) -> CpuView {
        CpuView { sfs, ..self }
    }

    pub open spec fn read8(self, a: int) -> Result<u8, ExecutionError> {
        match map_read_u8(self.mem, a) {
            Ok(v) => Ok(v),
            Err(e) => Err(ExecutionError::InternalMemoryError(e)),
        }
    }

    pub open spec fn read16(self, a: int) -> Result<u16, ExecutionError> {
        match map_read_u16(self.mem, a) {
            Ok(v) => Ok(v),
            Err(e) => Err(ExecutionError::InternalMemoryError(e)),
        }
    }

    pub open spec fn write8(self, a: int, v: u8) -> Result<CpuView, ExecutionError> {
        match map_write_u8(self.mem, a, v) {
            Ok(m) => Ok(CpuView { mem: m, ..self }),
            Err(e) => Err(ExecutionError::InternalMemoryError(e)),
        }
    }

    pub open spec fn write16(self, a: int, v: u16) -> Result<CpuView, ExecutionError> {
        match map_write_u16(self.mem, a, v) {
            Ok(m) => Ok(CpuView { mem: m, ..self }),
            Err(e) => Err(ExecutionError::InternalMemoryError(e)),
        }
    }

    /// Byte at `IP`, with `IP` moved past it.
    pub open spec fn fetch_u8(self) -> Result<(CpuView, u8), ExecutionError> {
        let ip = self.reg(IP as int);
        match self.read8(ip as int) {
            Ok(b) => Ok((self.set_reg(IP as int, wrap16(ip + 1)), b)),
            Err(e) => Err(e),
        }
    }

    /// Big-endian word at `IP`, with `IP` moved past it.
    pub open spec fn fetch_u16(self) -> Result<(CpuView, u16), ExecutionError> {
        let ip = self.reg(IP as int);
        match self.read16(ip as int) {
            Ok(w) => Ok((self.set_reg(IP as int, wrap16(ip + 2)), w)),
            Err(e) => Err(e),
        }
    }

    /// Register operand at `IP`: a byte reduced modulo the register count.
    pub open spec fn fetch_reg(self) -> Result<(CpuView, u8), ExecutionError> {
        match self.fetch_u8() {
            Ok((t, b)) => Ok((t, (b % REGISTER_COUNT) as u8)),
            Err(e) => Err(e),
        }
    }

    /// One operand: a word when `word`, else a register.
    pub open spec fn fetch_operand(self, word: bool) -> Result<(CpuView, u16), ExecutionError> {
        if word {
            self.fetch_u16()
        } else {
            match self.fetch_reg() {
                Ok((t, r)) => Ok((t, r as u16)),
                Err(e) => Err(e),
            }
        }
    }

    /// Pushes `v`: writes it at `SP`, then moves `SP` down by two.
    pub open spec fn push(self, v: u16) -> Result<CpuView, ExecutionError> {
        let sp = self.reg(SP as int);
        match self.write16(sp as int, v) {
            Ok(t) => Ok(t.with_sfs(wrap16(self.sfs + 2)).set_reg(SP as int, wrap16(sp - 2))),
            Err(e) => Err(e),
        }
    }

    /// Pops: moves `SP` up by two and reads the word there.
    pub open spec fn pop(self) -> Result<(CpuView, u16), ExecutionError> {
        let sp = self.reg(SP as int) + 2;
        if sp > 0xFFFF {
            Err(ExecutionError::BadReturn)
        } else {
            match self.read16(sp) {
                Ok(v) => Ok((self.set_reg(SP as int, sp as u16).with_sfs(wrap16(self.sfs - 2)), v)),
                Err(e) => Err(e),
            }
        }
    }
    /// Reads `a` as a word, or as a zero-extended byte.
    pub open spec fn read_w(self, a: int, word: bool) -> Result<u16, ExecutionError> {
        if word {
            self.read16(a)
        } else {
            match self.read8(a) {
                Ok(b) => Ok(b as u16),
                Err(e) => Err(e),
            }
        }
    }

    /// Writes `v` at `a` as a word, or its low byte.
    pub open spec fn write_w(self, a: int, v: u16, word: bool) -> Result<CpuView, ExecutionError> {
        if word {
            self.write16(a, v)
        } else {
            self.write8(a, (v as int % 256) as u8)
        }
    }

    /// Pushes the first `k` saved registers, in order.
    pub open spec fn push_saved(self, k: nat) -> Result<CpuView, ExecutionError>
        decreases k,
    {
        if k == 0 {
            Ok(self)
        } else {
            match self.push_saved((k - 1) as nat) {
                Ok(t) => t.push(t.reg(saved_reg(k - 1))),
                Err(e) => Err(e),
            }
        }
    }

    /// Pops `k` saved registers, from `IP` back towards `AX`.
    pub open spec fn pop_saved(self, k: nat) -> Result<CpuView, ExecutionError>
        decreases k,
    {
        if k == 0 {
            Ok(self)
        } else {
            match self.pop_saved((k - 1) as nat) {
                Ok(t) => match t.pop() {
                    Ok((u, v)) => Ok(u.set_reg(saved_reg(9 - k), v)),
                    Err(e) => Err(e),
                },
                Err(e) => Err(e),
            }
        }
    }

    /// Call: save `AX..HX` and `IP`, then the frame size, open a new frame
    /// and jump to `addr`.
    pub open spec fn call(self, addr: u16) -> Result<CpuView, ExecutionError> {
        match self.push_saved(9) {
            Ok(t) => match t.push(wrap16(t.sfs + 2)) {
                Ok(u) => Ok(u.set_reg(FP as int, u.reg(SP as int)).with_sfs(0).set_reg(IP as int, addr)),
                Err(e) => Err(e),
            },
            Err(e) => Err(e),
        }
    }

    /// Return: drop the frame, restore the saved frame size (also into `FP`)
    /// and the saved registers.
    pub open spec fn ret(self) -> Result<CpuView, ExecutionError> {
        let t = self.set_reg(SP as int, self.reg(FP as int)).with_sfs(2);
        match t.pop() {
            Ok((u, size)) => u.with_sfs(size).set_reg(FP as int, size).pop_saved(9),
            Err(e) => Err(e),
        }
    }

    /// Moves.
    pub open spec fn run_move(self, o: u8, x: u16, y: u16, z: u16) -> Result<CpuView, ExecutionError> {
        let (rx, ry, rz) = (x as int, y as int, z as int);
        if o == op::MOV_LIT_REG {
            Ok(self.set_reg(ry, x).with_flags(fit(ry, x), wide(ry), false))
        } else if o == op::MOV_LIT_MEM8 {
            then_flags(self.write_w(y as int, x, false), (x as int % 256) as u16, false, false)
        } else if o == op::MOV_LIT_MEM16 {
            then_flags(self.write_w(y as int, x, true), x, true, false)
        } else if o == op::MOV_REG_REG {
            let v = self.reg(rx);
            Ok(self.set_reg(ry, v).with_flags(fit(ry, v), wide(ry), false))
        } else if o == op::MOV_REG_MEM {
            let v = self.reg(rx);
            then_flags(self.write_w(y as int, v, wide(rx)), v, wide(rx), false)
        } else if o == op::MOV_MEM_REG {
            match self.read_w(x as int, wide(ry)) {
                Ok(v) => Ok(self.set_reg(ry, v).with_flags(v, wide(ry), false)),
                Err(e) => Err(e),
            }
        } else if o == op::MOV_PTRREG_REG {
            if !wide(rx) {
                Err(ExecutionError::BadRegisterPtrLen)
            } else {
                match self.read_w(self.reg(rx) as int, wide(ry)) {
                    Ok(v) => Ok(self.set_reg(ry, v).with_flags(v, wide(ry), false)),
                    Err(e) => Err(e),
                }
            }
        } else if o == op::MOV_REG_PTRREG {
            if !wide(ry) {
                Err(ExecutionError::BadRegisterPtrLen)
            } else {
                let v = self.reg(rx);
                then_flags(self.write_w(self.reg(ry) as int, v, wide(rx)), v, wide(rx), false)
            }
        } else {
            if !wide(ry) {
                Err(ExecutionError::BadRegisterPtrLen)
            } else {
                match self.read16(x + self.reg(ry)) {
                    Ok(v) => Ok(self.set_reg(rz, v).with_flags(fit(rz, v), wide(rz), false)),
                    Err(e) => Err(e),
                }
            }
        }
    }

    /// `ACC` set to `v` reduced to 16 bits; the carry tells that it did not fit.
    pub open spec fn to_acc(self, v: int) -> CpuView {
        self.set_reg(ACC as int, wrap16(v)).with_flags(wrap16(v), true, v < 0 || v > 0xFFFF)
    }

    /// Arithmetic and comparisons.
    pub open spec fn run_arith(self, o: u8, x: u16, y: u16) -> CpuView {
        let (rx, ry) = (x as int, y as int);
        if o == op::ADD_REG_REG {
            self.to_acc(self.reg(rx) + self.reg(ry))
        } else if o == op::ADD_REG_LIT {
            self.to_acc(self.reg(rx) + y)
        } else if o == op::SUB_REG_LIT {
            self.to_acc(y - self.reg(rx))
        } else if o == op::SUB_LIT_REG {
            self.to_acc(self.reg(ry) - x)
        } else if o == op::SUB_REG_REG {
            self.to_acc(self.reg(ry) - self.reg(rx))
        } else if o == op::MUL_REG_REG {
            self.to_acc(self.reg(rx) * self.reg(ry))
        } else if o == op::MUL_REG_LIT {
            self.to_acc(self.reg(rx) * y)
        } else if o == op::CMP_REG_REG {
            let v = self.reg(rx) - self.reg(ry);
            self.with_flags(wrap16(v), true, v < 0)
        } else if o == op::CMP_REG_LIT {
            let v = self.reg(rx) - y;
            self.with_flags(wrap16(v), true, v < 0)
        } else {
            let m: int = if wide(rx) { 0x1_0000 } else { 0x100 };
            let v: int = if o == op::INC_REG { self.reg(rx) + 1 } else { self.reg(rx) - 1 };
            let res = ((v + m) % m) as u16;
            self.set_reg(rx, res).with_flags(res, wide(rx), v < 0 || v >= m)
        }
    }

    /// Jumps: the target is the literal, or the register for the odd opcodes.
    pub open spec fn run_jump(self, o: u8, x: u16) -> CpuView {
        let target = if o % 2 == 0 { x } else { self.reg(x as int) };
        if jump_taken(o, self.flags) { self.set_reg(IP as int, target) } else { self }
    }

    /// Pushes and pops.
    pub open spec fn run_stack(self, o: u8, x: u16) -> Result<CpuView, ExecutionError> {
        let rx = x as int;
        if o == op::PSH_LIT {
            then_flags(self.push(x), x, true, false)
        } else if o == op::PSH_REG {
            then_flags(self.push(self.reg(rx)), self.reg(rx), true, false)
        } else if o == op::PSH_MEM8 || o == op::PSH_MEM16 {
            match self.read_w(x as int, o == op::PSH_MEM16) {
                Ok(v) => then_flags(self.push(v), v, true, false),
                Err(e) => Err(e),
            }
        } else if o == op::PSH_PTRREG8 || o == op::PSH_PTRREG16 {
            if !wide(rx) {
                Err(ExecutionError::BadRegisterPtrLen)
            } else {
                match self.read_w(self.reg(rx) as int, o == op::PSH_PTRREG16) {
                    Ok(v) => then_flags(self.push(v), v, true, false),
                    Err(e) => Err(e),
                }
            }
        } else if o == op::POP_REG {
            match self.pop() {
                Ok((t, v)) => Ok(t.set_reg(rx, v).with_flags(fit(rx, v), wide(rx), false)),
                Err(e) => Err(e),
            }
        } else if o == op::POP_MEM8 || o == op::POP_MEM16 {
            let word = o == op::POP_MEM16;
            match self.pop() {
                Ok((t, v)) => {
                    let w = if word { v } else { (v as int % 256) as u16 };
                    then_flags(t.write_w(x as int, v, word), w, word, false)
                },
                Err(e) => Err(e),
            }
        } else {
            let word = o == op::POP_PTRREG16;
            if !wide(rx) {
                Err(ExecutionError::BadRegisterPtrLen)
            } else {
                match self.pop() {
                    Ok((t, v)) => {
                        let w = if word { v } else { (v as int % 256) as u16 };
                        then_flags(t.write_w(self.reg(rx) as int, v, word), w, word, false)
                    },
                    Err(e) => Err(e),
                }
            }
        }
    }

    /// Calls and returns.
    pub open spec fn run_call(self, o: u8, x: u16) -> Result<CpuView, ExecutionError> {
        if o == op::CALL_LIT {
            self.call(x)
        } else if o == op::CALL_REG {
            if !wide(x as int) {
                Err(ExecutionError::BadRegisterPtrLen)
            } else {
                self.call(self.reg(x as int))
            }
        } else {
            self.ret()
        }
    }

    /// Shifts and bitwise operations on a register.
    pub open spec fn run_logic(self, o: u8, x: u16, y: u16) -> CpuView {
        let rx = x as int;
        let a = self.reg(rx);
        let b = if o % 2 == 0 { self.reg(y as int) } else { y };
        let v = if o == op::LSF_REG_REG || o == op::LSF_REG_LIT {
            if b >= 16 { 0u16 } else { a << b }
        } else if o == op::RSF_REG_REG || o == op::RSF_REG_LIT {
            if b >= 16 { 0u16 } else { a >> b }
        } else if o == op::AND_REG_REG || o == op::AND_REG_LIT {
            a & b
        } else if o == op::OR_REG_REG || o == op::OR_REG_LIT {
            a | b
        } else if o == op::XOR_REG_REG || o == op::XOR_REG_LIT {
            a ^ b
        } else {
            !a
        };
        self.set_reg(rx, fit(rx, v)).with_flags(fit(rx, v), wide(rx), false)
    }

    /// Effect of opcode `o` once its operands `x, y, z` are fetched.
    pub open spec fn run(self, o: u8, x: u16, y: u16, z: u16) -> Result<CpuView, ExecutionError> {
        if o <= 0x1A {
            self.run_move(o, x, y, z)
        } else if o <= 0x2A {
            Ok(self.run_arith(o, x, y))
        } else if o <= 0x3D {
            Ok(self.run_jump(o, x))
        } else if o <= 0x4A {
            self.run_stack(o, x)
        } else if o <= 0x52 {
            self.run_call(o, x)
        } else if o <= 0x6A {
            Ok(self.run_logic(o, x, y))
        } else {
            Err(ExecutionError::EndOfExecution)
        }
    }

    /// Operands of an opcode of layout `l`, fetched in order.
    pub open spec fn fetch_operands(self, l: (u8, bool, bool, bool)) -> Result<(CpuView, u16, u16, u16), ExecutionError> {
        match (if l.0 >= 1 { self.fetch_operand(l.1) } else { Ok((self, 0u16)) }) {
            Err(e) => Err(e),
            Ok((s1, x)) => match (if l.0 >= 2 { s1.fetch_operand(l.2) } else { Ok((s1, 0u16)) }) {
                Err(e) => Err(e),
                Ok((s2, y)) => match (if l.0 >= 3 { s2.fetch_operand(l.3) } else { Ok((s2, 0u16)) }) {
                    Err(e) => Err(e),
                    Ok((s3, z)) => Ok((s3, x, y, z)),
                },
            },
        }
    }

    /// Fetches the operands of opcode `o` and runs it.
    pub open spec fn execute(self, o: u8) -> Result<CpuView, ExecutionError> {
        match layout_of(o) {
            None => Err(ExecutionError::UnexpectedInstruction(o)),
            Some(l) => match self.fetch_operands(l) {
                Err(e) => Err(e),
                Ok((t, x, y, z)) => t.run(o, x, y, z),
            },
        }
    }

    /// One instruction: fetch the opcode, then execute it.
    pub open spec fn step(self) -> Result<CpuView, ExecutionError> {
        match self.fetch_u8() {
            Err(e) => Err(e),
            Ok((t, o)) => t.execute(o),
        }
    }
}


/// Where each register lies in the register file.
pub proof fn lemma_register_layout(r: int)
    requires
        0 <= r < REGISTER_COUNT,
    ensures
        address_of(r) + size_of(r) <= REGISTER_LEN,
        r == AX || r == BX || r == CX || r == DX ==> size_of(r) == 2 && size_of(r - 2) == 1
            && size_of(r - 1) == 1 && address_of(r - 2) == address_of(r)
            && address_of(r - 1) == address_of(r) + 1,
{
}

/// Setting a register and reading it back gives the value set, masked to
/// the register's width: `0xFF` for a half, `0xFFFF` otherwise.
pub proof fn lemma_set_then_get(s: CpuView, r: int, v: u16)
    requires
        s.regs.len() == REGISTER_LEN,
        0 <= r < REGISTER_COUNT,
    ensures
        s.set_reg(r, v).reg(r) == v & (if size_of(r) == 1 { 0xFFu16 } else { 0xFFFFu16 }),
{
    lemma_register_layout(r);
    assert(v & 0xFF == v % 256) by (bit_vector);
    assert(v & 0xFFFF == v) by (bit_vector);
}

/// Setting `AX` (or `BX`, `CX`, `DX`) sets its halves: the high half reads
/// `(v >> 8) & 0xFF`, the low half `v & 0xFF`.
pub proof fn lemma_halves_alias(s: CpuView, r: int, v: u16)
    requires
        s.regs.len() == REGISTER_LEN,
        r == AX || r == BX || r == CX || r == DX,
    ensures
        s.set_reg(r, v).reg(r - 2) == (v >> 8) & 0xFF,
        s.set_reg(r, v).reg(r - 1) == v & 0xFF,
{
    lemma_register_layout(r);
    assert((v >> 8) & 0xFF == v / 256) by (bit_vector);
    assert(v & 0xFF == v % 256) by (bit_vector);
}

/// Exact result of arithmetic instruction `o` before it is reduced to its
/// width, and that width in bits.
pub open spec fn arith_exact(s: CpuView, o: u8, x: u16, y: u16) -> (int, nat) {
    let (rx, ry) = (x as int, y as int);
    if o == op::ADD_REG_REG {
        (s.reg(rx) + s.reg(ry), 16)
    } else if o == op::ADD_REG_LIT {
        (s.reg(rx) + y, 16)
    } else if o == op::SUB_REG_LIT {
        (y - s.reg(rx), 16)
    } else if o == op::SUB_LIT_REG {
        (s.reg(ry) - x, 16)
    } else if o == op::SUB_REG_REG {
        (s.reg(ry) - s.reg(rx), 16)
    } else if o == op::MUL_REG_REG {
        (s.reg(rx) * s.reg(ry), 16)
    } else if o == op::MUL_REG_LIT {
        (s.reg(rx) * y, 16)
    } else if o == op::CMP_REG_REG {
        (s.reg(rx) - s.reg(ry), 16)
    } else if o == op::CMP_REG_LIT {
        (s.reg(rx) - y, 16)
    } else if o == op::INC_REG {
        (s.reg(rx) + 1, 8 * size_of(rx))
    } else {
        (s.reg(rx) - 1, 8 * size_of(rx))
    }
}

/// Register written by arithmetic instruction `o`: the register operand for
/// `INC` and `DEC`, `ACC` for the others (a comparison writes none).
pub open spec fn arith_dest(o: u8, x: u16) -> int {
    if o == op::INC_REG || o == op::DEC_REG { x as int } else { ACC as int }
}

/// Flags after an arithmetic instruction of width W: ZERO tells that the
/// result reduced to W bits is zero, NEG that its top bit is set, CARRY
/// that the exact result does not fit in W bits unsigned. The destination
/// holds that reduced result.
pub proof fn lemma_arith_flags(s: CpuView, o: u8, x: u16, y: u16)
    requires
        s.regs.len() == REGISTER_LEN,
        op::ADD_REG_REG <= o <= op::DEC_REG,
        layout_of(o) matches Some(l) && regs_ok(l, x, y, 0),
    ensures
        ({
            let t = s.run_arith(o, x, y);
            let (exact, bits) = arith_exact(s, o, x, y);
            let m = if bits == 8 { 0x100int } else { 0x1_0000int };
            let res = exact % m;
            &&& bits == 8 || bits == 16
            &&& zero_set(t.flags) == (res == 0)
            &&& neg_set(t.flags) == (res >= m / 2)
            &&& carry_set(t.flags) == (exact < 0 || exact >= m)
            &&& (o != op::CMP_REG_REG && o != op::CMP_REG_LIT ==> t.reg(arith_dest(o, x)) == res)
        }),
{
    let t = s.run_arith(o, x, y);
    let (exact, bits) = arith_exact(s, o, x, y);
    let m = if bits == 8 { 0x100int } else { 0x1_0000int };
    let res = (exact % m) as u16;
    if x < REGISTER_COUNT {
        lemma_register_layout(x as int);
    }
    lemma_register_layout(ACC as int);
    if o == op::MUL_REG_REG || o == op::MUL_REG_LIT {
        let a = s.reg(x as int) as int;
        let b: int = if o == op::MUL_REG_REG { s.reg(y as int) as int } else { y as int };
        assert(0 <= a * b) by (nonlinear_arith)
            requires 0 <= a, 0 <= b;
    }
    lemma_flags_of(res, bits == 16, exact < 0 || exact >= m);
    if o != op::CMP_REG_REG && o != op::CMP_REG_LIT {
        lemma_set_then_get(s, arith_dest(o, x), res);
        assert(res & 0xFF == res % 256) by (bit_vector);
        assert(res & 0xFFFF == res) by (bit_vector);
    }
}

/// Flags after a shift or bitwise instruction: ZERO tells that the register
/// now holds zero, NEG that its top bit (at its width) is set; CARRY is clear.
pub proof fn lemma_logic_flags(s: CpuView, o: u8, x: u16, y: u16)
    requires
        s.regs.len() == REGISTER_LEN,
        op::LSF_REG_REG <= o <= op::NOT,
        layout_of(o) matches Some(l) && regs_ok(l, x, y, 0),
    ensures
        ({
            let t = s.run_logic(o, x, y);
            let v = t.reg(x as int);
            &&& zero_set(t.flags) == (v == 0)
            &&& neg_set(t.flags) == (if wide(x as int) { v >= 0x8000 } else { v >= 0x80 })
            &&& !carry_set(t.flags)
        }),
{
    let rx = x as int;
    let a = s.reg(rx);
    let b = if o % 2 == 0 { s.reg(y as int) } else { y };
    let v0 = if o == op::LSF_REG_REG || o == op::LSF_REG_LIT {
        if b >= 16 { 0u16 } else { a << b }
    } else if o == op::RSF_REG_REG || o == op::RSF_REG_LIT {
        if b >= 16 { 0u16 } else { a >> b }
    } else if o == op::AND_REG_REG || o == op::AND_REG_LIT {
        a & b
    } else if o == op::OR_REG_REG || o == op::OR_REG_LIT {
        a | b
    } else if o == op::XOR_REG_REG || o == op::XOR_REG_LIT {
        a ^ b
    } else {
        !a
    };
    let v = fit(rx, v0);
    lemma_set_then_get(s, rx, v);
    assert(v & 0xFF == v % 256) by (bit_vector);
    assert(v & 0xFFFF == v) by (bit_vector);
    lemma_flags_of(v, wide(rx), false);
}

/// Masking a `u16` with `0xFFFF` keeps it.
proof fn lemma_u16_mask(x: u16)
    ensures
        x & 0xFFFF == x,
{
    assert(x & 0xFFFF == x) by (bit_vector);
}

/// Stack slot `j` below `sp`: where a call pushes its `j`-th word.
pub open spec fn slot(sp: int, j: int) -> int {
    sp - 2 * j
}

/// A 16-bit register that is not a half.
pub open spec fn whole_reg(r: int) -> bool {
    0 <= r < REGISTER_COUNT && !is_half(r)
}

/// Setting one whole register leaves every other whole register alone.
proof fn lemma_whole_regs_apart(s: CpuView, r1: int, v: u16, r2: int)
    requires
        s.regs.len() == REGISTER_LEN,
        whole_reg(r1),
        whole_reg(r2),
        r1 != r2,
    ensures
        s.set_reg(r1, v).reg(r2) == s.reg(r2),
        s.set_reg(r1, v).regs.len() == REGISTER_LEN,
{
    lemma_register_layout(r1);
    lemma_register_layout(r2);
}

/// Pushing the saved registers of a call writes each at its slot.
#[verifier::rlimit(60)]
#[verifier::spinoff_prover]
proof fn lemma_push_saved(s: CpuView, k: nat)
    requires
        s.regs.len() == REGISTER_LEN,
        forall|i: int| 0 <= i < s.mem.len() ==> #[trigger] s.mem[i].wf(),
        20 <= s.reg(SP as int),
        forall|j: int| 0 <= j < 10 ==> ram_word(s.mem, #[trigger] slot(s.reg(SP as int) as int, j)),
        k <= 9,
    ensures
        s.push_saved(k) matches Ok(t) && {
            &&& t.regs.len() == REGISTER_LEN
            &&& forall|i: int| 0 <= i < t.mem.len() ==> #[trigger] t.mem[i].wf()
            &&& same_layout(s.mem, t.mem)
            &&& t.reg(SP as int) == s.reg(SP as int) - 2 * k
            &&& forall|j: int| 0 <= j < 9 ==> t.reg(#[trigger] saved_reg(j)) == s.reg(saved_reg(j))
            &&& t.reg(FP as int) == s.reg(FP as int)
            &&& forall|j: int| 0 <= j < k ==> t.read16(#[trigger] slot(s.reg(SP as int) as int, j))
                == Ok::<u16, ExecutionError>(s.reg(saved_reg(j)))
        },
    decreases k,
{
    let top = s.reg(SP as int) as int;
    if k > 0 {
        lemma_push_saved(s, (k - 1) as nat);
        let t = s.push_saved((k - 1) as nat)->Ok_0;
        let a = slot(top, k - 1);
        let r = saved_reg(k - 1);
        let v = t.reg(r);
        assert(ram_word(s.mem, a));
        lemma_same_layout_find(s.mem, t.mem, a);
        let i = find_region(s.mem, a)->Some_0;
        lemma_find_region_found(s.mem, a);
        assert(s.mem[i].end == t.mem[i].end);
        assert(ram_word(t.mem, a));
        lemma_ram_write_u16(t.mem, a, v, a);
        let m2 = map_write_u16(t.mem, a, v)->Ok_0;
        let w = CpuView { mem: m2, ..t }.with_sfs(wrap16(t.sfs + 2));
        let t2 = w.set_reg(SP as int, wrap16(t.reg(SP as int) - 2));
        assert(t2 == s.push_saved(k)->Ok_0);
        assert forall|j: int| 0 <= j < 9 implies t2.reg(#[trigger] saved_reg(j)) == s.reg(saved_reg(j)) by {
            lemma_whole_regs_apart(w, SP as int, wrap16(t.reg(SP as int) - 2), saved_reg(j));
        }
        lemma_whole_regs_apart(w, SP as int, wrap16(t.reg(SP as int) - 2), FP as int);
        lemma_set_then_get(w, SP as int, wrap16(t.reg(SP as int) - 2));
        lemma_u16_mask(wrap16(t.reg(SP as int) - 2));
        assert forall|j: int| 0 <= j < k implies t2.read16(#[trigger] slot(top, j))
            == Ok::<u16, ExecutionError>(s.reg(saved_reg(j))) by {
            if j < k - 1 {
                lemma_ram_write_u16(t.mem, a, v, slot(top, j));
            }
        }
        assert forall|x: int| 0 <= x < s.mem.len() implies #[trigger] s.mem[x].start == t2.mem[x].start
            && s.mem[x].end == t2.mem[x].end && (s.mem[x].device is Ram <==> t2.mem[x].device is Ram) by {
            assert(s.mem[x].start == t.mem[x].start);
            assert(t.mem[x].start == m2[x].start);
        }
    }
}

/// Popping the saved registers of a call restores each from its slot.
proof fn lemma_pop_saved(u: CpuView, k: nat, top: int, s: CpuView)
    requires
        u.regs.len() == REGISTER_LEN,
        k <= 9,
        20 <= top <= 0xFFFE,
        u.reg(SP as int) == top - 18,
        forall|j: int| 0 <= j < 9 ==> u.read16(#[trigger] slot(top, j))
            == Ok::<u16, ExecutionError>(s.reg(saved_reg(j))),
    ensures
        u.pop_saved(k) matches Ok(w) && {
            &&& w.regs.len() == REGISTER_LEN
            &&& w.mem == u.mem
            &&& w.reg(SP as int) == top - 18 + 2 * k
            &&& forall|j: int| 9 - k <= j < 9 ==> w.reg(#[trigger] saved_reg(j)) == s.reg(saved_reg(j))
        },
    decreases k,
{
    if k > 0 {
        lemma_pop_saved(u, (k - 1) as nat, top, s);
        let t = u.pop_saved((k - 1) as nat)->Ok_0;
        let head = t.reg(SP as int) + 2;
        assert(head == slot(top, 9 - k));
        let v = s.reg(saved_reg(9 - k));
        let t1 = t.set_reg(SP as int, head as u16).with_sfs(wrap16(t.sfs - 2));
        let w = t1.set_reg(saved_reg(9 - k), v);
        assert(w == u.pop_saved(k)->Ok_0);
        lemma_set_then_get(t, SP as int, head as u16);
        lemma_u16_mask(head as u16);
        lemma_whole_regs_apart(t1, saved_reg(9 - k), v, SP as int);
        lemma_set_then_get(t1, saved_reg(9 - k), v);
        lemma_u16_mask(v);
        assert forall|j: int| 9 - k <= j < 9 implies w.reg(#[trigger] saved_reg(j)) == s.reg(saved_reg(j)) by {
            if j != 9 - k {
                lemma_whole_regs_apart(t, SP as int, head as u16, saved_reg(j));
                lemma_whole_regs_apart(t1, saved_reg(9 - k), v, saved_reg(j));
            }
        }
    }
}

/// What a call leaves: `FP` at the new frame, 20 bytes below the old `SP`,
/// and the caller's registers in their slots.
proof fn lemma_call_frame(s: CpuView, addr: u16)
    requires
        s.regs.len() == REGISTER_LEN,
        forall|i: int| 0 <= i < s.mem.len() ==> #[trigger] s.mem[i].wf(),
        20 <= s.reg(SP as int),
        forall|j: int| 0 <= j < 10 ==> ram_word(s.mem, #[trigger] slot(s.reg(SP as int) as int, j)),
    ensures
        s.call(addr) matches Ok(t) && {
            &&& t.reg(FP as int) == s.reg(SP as int) - 20
            &&& forall|j: int| 0 <= j < 9 ==> t.read16(#[trigger] slot(s.reg(SP as int) as int, j))
                == Ok::<u16, ExecutionError>(s.reg(saved_reg(j)))
            &&& t.read16(slot(s.reg(SP as int) as int, 9)) is Ok
        },
{
    let top = s.reg(SP as int) as int;
    lemma_push_saved(s, 9);
    let t9 = s.push_saved(9)->Ok_0;
    let a = slot(top, 9);
    assert(ram_word(s.mem, a));
    lemma_same_layout_find(s.mem, t9.mem, a);
    lemma_find_region_found(s.mem, a);
    let i = find_region(s.mem, a)->Some_0;
    assert(s.mem[i].end == t9.mem[i].end);
    assert(ram_word(t9.mem, a));
    let fsize = wrap16(t9.sfs + 2);
    lemma_ram_write_u16(t9.mem, a, fsize, a);
    let m2 = map_write_u16(t9.mem, a, fsize)->Ok_0;
    let w = CpuView { mem: m2, ..t9 }.with_sfs(wrap16(t9.sfs + 2));
    let new_sp = wrap16(t9.reg(SP as int) - 2);
    let u1 = w.set_reg(SP as int, new_sp);
    lemma_set_then_get(w, SP as int, new_sp);
    lemma_u16_mask(new_sp);
    assert(u1.reg(SP as int) == top - 20);
    let u1f = u1.set_reg(FP as int, u1.reg(SP as int)).with_sfs(0);
    let t = u1f.set_reg(IP as int, addr);
    assert(t == s.call(addr)->Ok_0);
    lemma_set_then_get(u1, FP as int, u1.reg(SP as int));
    lemma_u16_mask(u1.reg(SP as int));
    lemma_whole_regs_apart(u1f, IP as int, addr, FP as int);
    assert forall|j: int| 0 <= j < 9 implies t.read16(#[trigger] slot(top, j))
        == Ok::<u16, ExecutionError>(s.reg(saved_reg(j))) by {
        assert(t9.read16(slot(top, j)) == Ok::<u16, ExecutionError>(s.reg(saved_reg(j))));
        lemma_ram_write_u16(t9.mem, a, fsize, slot(top, j));
    }
    assert(t.mem == m2);
    assert(t.read16(a) == Ok::<u16, ExecutionError>(fsize));
}

/// A return from a frame at `top - 20` whose slots hold the registers of
/// `s` restores them, and `SP` to `top`.
proof fn lemma_return_frame(u: CpuView, top: int, s: CpuView)
    requires
        u.regs.len() == REGISTER_LEN,
        20 <= top <= 0xFFFE,
        u.reg(FP as int) == top - 20,
        forall|j: int| 0 <= j < 9 ==> u.read16(#[trigger] slot(top, j))
            == Ok::<u16, ExecutionError>(s.reg(saved_reg(j))),
        u.read16(slot(top, 9)) is Ok,
    ensures
        u.ret() is Ok,
        forall|j: int| 0 <= j < 9 ==> u.ret()->Ok_0.reg(#[trigger] saved_reg(j)) == s.reg(saved_reg(j)),
        u.ret()->Ok_0.reg(SP as int) == top,
{
    let r1 = u.set_reg(SP as int, u.reg(FP as int)).with_sfs(2);
    lemma_set_then_get(u, SP as int, u.reg(FP as int));
    lemma_u16_mask(u.reg(FP as int));
    assert(r1.reg(SP as int) + 2 == slot(top, 9));
    assert(r1.mem == u.mem);
    assert(r1.pop() is Ok);
    let (r2, size) = r1.pop()->Ok_0;
    let r3 = r2.with_sfs(size).set_reg(FP as int, size);
    assert(u.ret() == r3.pop_saved(9));
    lemma_whole_regs_apart(r2.with_sfs(size), FP as int, size, SP as int);
    lemma_set_then_get(r1, SP as int, (top - 18) as u16);
    lemma_u16_mask((top - 18) as u16);
    assert(r3.reg(SP as int) == top - 18);
    assert(r3.mem == u.mem);
    assert forall|j: int| 0 <= j < 9 implies r3.read16(#[trigger] slot(top, j))
        == Ok::<u16, ExecutionError>(s.reg(saved_reg(j))) by {
        assert(u.read16(slot(top, j)) == Ok::<u16, ExecutionError>(s.reg(saved_reg(j))));
    }
    lemma_pop_saved(r3, 9, top, s);
}

/// A call succeeds, and a return that follows it succeeds and gives back
/// `AX` to `HX`, `IP` (the return address) and `SP` as they were when the
/// call was made, whatever ran in between, provided it left `FP` and the
/// words the call pushed as they were.
/// The ten stack words the call uses must be served by RAM; with `SP` below
/// 20 the frame would wrap around the address space.
pub proof fn lemma_call_return(s: CpuView, addr: u16, u: CpuView)
    requires
        s.regs.len() == REGISTER_LEN,
        forall|i: int| 0 <= i < s.mem.len() ==> #[trigger] s.mem[i].wf(),
        20 <= s.reg(SP as int),
        forall|j: int| 0 <= j < 10 ==> ram_word(s.mem, #[trigger] slot(s.reg(SP as int) as int, j)),
        u.regs.len() == REGISTER_LEN,
        u.reg(FP as int) == s.call(addr)->Ok_0.reg(FP as int),
        forall|j: int| 0 <= j < 10 ==> u.read16(#[trigger] slot(s.reg(SP as int) as int, j))
            == s.call(addr)->Ok_0.read16(slot(s.reg(SP as int) as int, j)),
    ensures
        s.call(addr) is Ok,
        u.ret() is Ok,
        forall|j: int| 0 <= j < 9 ==> u.ret()->Ok_0.reg(#[trigger] saved_reg(j)) == s.reg(saved_reg(j)),
        u.ret()->Ok_0.reg(SP as int) == s.reg(SP as int),
{
    let top = s.reg(SP as int) as int;
    let a = slot(top, 0);
    assert(ram_word(s.mem, a));
    lemma_find_region_found(s.mem, a);
    assert(s.mem[find_region(s.mem, a)->Some_0].wf());
    lemma_call_frame(s, addr);
    let t = s.call(addr)->Ok_0;
    assert forall|j: int| 0 <= j < 9 implies u.read16(#[trigger] slot(top, j))
        == Ok::<u16, ExecutionError>(s.reg(saved_reg(j))) by {
        assert(t.read16(slot(top, j)) == Ok::<u16, ExecutionError>(s.reg(saved_reg(j))));
    }
    assert(u.read16(slot(top, 9)) == t.read16(slot(top, 9)));
    lemma_return_frame(u, top, s);
}

/// Register written by a move or a pop into a register.
pub open spec fn move_dest(o: u8, x: u16, y: u16, z: u16) -> int {
    if o == op::MOV_LITOFF_REG { z as int } else if o == op::POP_REG { x as int } else { y as int }
}

/// Flags after a move or a pop into a register: ZERO tells that the
/// register now holds zero, NEG that its top bit (at its width) is set;
/// CARRY is clear.
pub proof fn lemma_move_flags(s: CpuView, o: u8, x: u16, y: u16, z: u16)
    requires
        s.regs.len() == REGISTER_LEN,
        o == op::MOV_LIT_REG || o == op::MOV_REG_REG || o == op::MOV_MEM_REG
            || o == op::MOV_PTRREG_REG || o == op::MOV_LITOFF_REG || o == op::POP_REG,
        layout_of(o) matches Some(l) && regs_ok(l, x, y, z),
    ensures
        ({
            let r = if o == op::POP_REG { s.run_stack(o, x) } else { s.run_move(o, x, y, z) };
            let d = move_dest(o, x, y, z);
            r matches Ok(t) ==> {
                let v = t.reg(d);
                &&& zero_set(t.flags) == (v == 0)
                &&& neg_set(t.flags) == (if wide(d) { v >= 0x8000 } else { v >= 0x80 })
                &&& !carry_set(t.flags)
            }
        }),
{
    let r = if o == op::POP_REG { s.run_stack(o, x) } else { s.run_move(o, x, y, z) };
    let d = move_dest(o, x, y, z);
    if let Ok(t) = r {
        let v = t.reg(d);
        lemma_register_layout(d);
        assert(t.flags == flags_of(v, wide(d), false)) by {
            if o == op::MOV_LIT_REG {
                lemma_set_then_get(s, d, x);
                lemma_u16_mask(x);
                assert((x & 0xFF) == x % 256) by (bit_vector);
            } else if o == op::MOV_REG_REG {
                lemma_set_then_get(s, d, s.reg(x as int));
                lemma_u16_mask(s.reg(x as int));
                let w = s.reg(x as int);
                assert((w & 0xFF) == w % 256) by (bit_vector);
            } else if o == op::POP_REG {
                let (t0, w) = s.pop()->Ok_0;
                lemma_set_then_get(t0, d, w);
                lemma_u16_mask(w);
                assert((w & 0xFF) == w % 256) by (bit_vector);
            } else if o == op::MOV_LITOFF_REG {
                let w = s.read16(x + s.reg(y as int))->Ok_0;
                lemma_set_then_get(s, d, w);
                lemma_u16_mask(w);
                assert((w & 0xFF) == w % 256) by (bit_vector);
            } else {
                let a: int = if o == op::MOV_MEM_REG { x as int } else { s.reg(x as int) as int };
                let w = s.read_w(a, wide(d))->Ok_0;
                lemma_set_then_get(s, d, w);
                lemma_u16_mask(w);
                assert((w & 0xFF) == w % 256) by (bit_vector);
            }
        }
        lemma_flags_of(v, wide(d), false);
    }
}

/// How the flags byte reads bit by bit.
pub proof fn lemma_flags_of(v: u16, wide: bool, carry: bool)
    ensures
        zero_set(flags_of(v, wide, carry)) == (v == 0),
        neg_set(flags_of(v, wide, carry)) == ((wide && v >= 0x8000) || (!wide && v >= 0x80)),
        carry_set(flags_of(v, wide, carry)) == carry,
{
}

/// The machine: its address space, its register file, the flags and the
/// size of the current stack frame.
pub struct CPU {
    memory: MemoryMap,
    registers: Memory,
    stack_frame_size: u16,
    flags: u8,
}

impl Default for CPU {
    fn default() -> (c: Self)
        ensures
            c.wf(),
            c@ == initial_state(),
    {
        Self::new()
    }
}

impl View for CPU {
    type V = CpuView;

    closed spec fn view(&self) -> CpuView {
        CpuView {
            mem: self.memory@,
            regs: self.registers@,
            sfs: self.stack_frame_size,
            flags: self.flags,
        }
    }
}

/// Result of a memory access as an execution error.
fn internal<T>(r: Result<T, MemoryError>) -> (o: Result<T, ExecutionError>)
    ensures
        match r {
            Ok(v) => o == Ok::<T, ExecutionError>(v),
            Err(e) => o == Err::<T, ExecutionError>(ExecutionError::InternalMemoryError(e)),
        },
{
    match r {
        Ok(v) => Ok(v),
        Err(e) => Err(ExecutionError::InternalMemoryError(e)),
    }
}

/// Flags for a result `v` of width 16 (`wide`) or 8 bits.
pub fn flags_for(v: u16, wide: bool, carry: bool) -> (f: u8)
    ensures
        f == flags_of(v, wide, carry),
{
    let mut f: u8 = 0;
    if v == 0 {
        f = f + F_ZERO;
    }
    if (wide && v >= 0x8000) || (!wide && v >= 0x80) {
        f = f + F_NEG;
    }
    if carry {
        f = f + F_CARRY;
    }
    f
}

/// Operand layout of opcode `o`.
fn layout(o: u8) -> (l: Option<(u8, bool, bool, bool)>)
    ensures
        l == layout_of(o),
{
    if o == op::MOV_LIT_REG || o == op::MOV_MEM_REG || o == op::SUB_LIT_REG {
        Some((2, true, false, false))
    } else if o == op::MOV_LIT_MEM8 || o == op::MOV_LIT_MEM16 {
        Some((2, true, true, false))
    } else if o == op::MOV_REG_REG || o == op::MOV_PTRREG_REG || o == op::MOV_REG_PTRREG
        || o == op::ADD_REG_REG || o == op::SUB_REG_REG || o == op::MUL_REG_REG
        || o == op::CMP_REG_REG {
        Some((2, false, false, false))
    } else if o == op::MOV_REG_MEM || o == op::ADD_REG_LIT || o == op::SUB_REG_LIT
        || o == op::MUL_REG_LIT || o == op::CMP_REG_LIT {
        Some((2, false, true, false))
    } else if o == op::MOV_LITOFF_REG {
        Some((3, true, false, false))
    } else if o == op::INC_REG || o == op::DEC_REG || o == op::NOT || o == op::PSH_REG
        || o == op::PSH_PTRREG8 || o == op::PSH_PTRREG16 || o == op::POP_REG
        || o == op::POP_PTRREG8 || o == op::POP_PTRREG16 || o == op::CALL_REG {
        Some((1, false, false, false))
    } else if o == op::PSH_LIT || o == op::PSH_MEM8 || o == op::PSH_MEM16 || o == op::POP_MEM8
        || o == op::POP_MEM16 || o == op::CALL_LIT {
        Some((1, true, false, false))
    } else if op::JMP_LIT <= o && o <= op::JLE_REG {
        if o % 2 == 0 { Some((1, true, false, false)) } else { Some((1, false, false, false)) }
    } else if op::LSF_REG_REG <= o && o <= op::XOR_REG_LIT {
        if o % 2 == 0 { Some((2, false, false, false)) } else { Some((2, false, true, false)) }
    } else if o == op::RET || o == op::END {
        Some((0, false, false, false))
    } else {
        None
    }
}

/// `a - b` reduced into `u16`.
fn wrapping_diff(a: u16, b: u16) -> (r: u16)
    ensures
        r == wrap16(a - b),
{
    if a >= b {
        a - b
    } else {
        let r = (a as u32 + 0x1_0000 - b as u32) as u16;
        assert(wrap16(a - b) == a - b + 0x1_0000);
        r
    }
}

/// Register saved by a call in position `k`.
fn saved_register(k: u8) -> (r: u8)
    requires
        k < 9,
    ensures
        r as int == saved_reg(k as int),
        r < REGISTER_COUNT,
{
    if k == 0 { AX }
    else if k == 1 { BX }
    else if k == 2 { CX }
    else if k == 3 { DX }
    else if k == 4 { EX }
    else if k == 5 { FX }
    else if k == 6 { GX }
    else if k == 7 { HX }
    else { IP }
}

/// Once pushing the saved registers fails, pushing more fails the same way.
proof fn lemma_push_saved_err(s: CpuView, k: nat, j: nat)
    requires
        s.push_saved(k) is Err,
        k <= j,
    ensures
        s.push_saved(j) == s.push_saved(k),
    decreases j - k,
{
    if k < j {
        lemma_push_saved_err(s, k, (j - 1) as nat);
    }
}

/// Once popping the saved registers fails, popping more fails the same way.
proof fn lemma_pop_saved_err(s: CpuView, k: nat, j: nat)
    requires
        s.pop_saved(k) is Err,
        k <= j,
    ensures
        s.pop_saved(j) == s.pop_saved(k),
    decreases j - k,
{
    if k < j {
        lemma_pop_saved_err(s, k, (j - 1) as nat);
    }
}

impl CPU {
    pub closed spec fn wf(&self) -> bool {
        &&& self.memory.wf()
        &&& self.registers@.len() == REGISTER_LEN
    }

    /// What a well-formed CPU's view holds: a register file of
    /// `REGISTER_LEN` bytes and well-formed regions.
    pub proof fn lemma_wf(&self)
        requires
            self.wf(),
        ensures
            self@.regs.len() == REGISTER_LEN,
            forall|i: int| 0 <= i < self@.mem.len() ==> #[trigger] self@.mem[i].wf(),
    {
        assert forall|i: int| 0 <= i < self@.mem.len() implies #[trigger] self@.mem[i].wf() by {
            assert(self.memory@[i].wf());
        }
    }

    /// Setting a register of this CPU and reading it back gives the value
    /// masked to the register's width; setting `AX` to `DX` sets its halves.
    pub proof fn lemma_register_round_trip(&self, r: int, v: u16)
        requires
            self.wf(),
            0 <= r < REGISTER_COUNT,
        ensures
            self@.set_reg(r, v).reg(r) == v & (if size_of(r) == 1 { 0xFFu16 } else { 0xFFFFu16 }),
            r == AX || r == BX || r == CX || r == DX ==> self@.set_reg(r, v).reg(r - 2) == (v >> 8) & 0xFF
                && self@.set_reg(r, v).reg(r - 1) == v & 0xFF,
    {
        self.lemma_wf();
        lemma_set_then_get(self@, r, v);
        if r == AX || r == BX || r == CX || r == DX {
            lemma_halves_alias(self@, r, v);
        }
    }

    /// Value of register `r`.
    fn reg(&self, r: u8) -> (v: u16)
        requires
            self.wf(),
            r < REGISTER_COUNT,
        ensures
            v == self@.reg(r as int),
    {
        let a = register_address(r);
        if register_size(r) == 1 {
            match self.registers.get_memory_at_u8(a) {
                Ok(b) => b as u16,
                Err(_) => 0,
            }
        } else {
            match self.registers.get_memory_at_u16(a) {
                Ok(w) => w,
                Err(_) => 0,
            }
        }
    }

    /// Sets register `r` to `v`.
    fn set_reg(&mut self, r: u8, v: u16)
        requires
            old(self).wf(),
            r < REGISTER_COUNT,
        ensures
            final(self).wf(),
            final(self)@ == old(self)@.set_reg(r as int, v),
    {
        let a = register_address(r);
        if register_size(r) == 1 {
            let _ = self.registers.set_memory_at_u8(a, (v % 256) as u8);
        } else {
            let _ = self.registers.set_memory_at_u16(a, v);
        }
        assert(self@ =~= old(self)@.set_reg(r as int, v));
    }

    fn set_flags(&mut self, v: u16, wide: bool, carry: bool)
        requires
            old(self).wf(),
        ensures
            final(self).wf(),
            final(self)@ == old(self)@.with_flags(v, wide, carry),
    {
        self.flags = flags_for(v, wide, carry);
    }

    fn read8(&self, a: usize) -> (r: Result<u8, ExecutionError>)
        ensures
            r == self@.read8(a as int),
    {
        internal(self.memory.get_memory_at_u8(a))
    }

    fn read16(&self, a: usize) -> (r: Result<u16, ExecutionError>)
        ensures
            r == self@.read16(a as int),
    {
        internal(self.memory.get_memory_at_u16(a))
    }

    fn write8(&mut self, a: usize, v: u8) -> (r: Result<(), ExecutionError>)
        requires
            old(self).wf(),
        ensures
            final(self).wf(),
            match old(self)@.write8(a as int, v) {
                Ok(t) => r is Ok && final(self)@ == t,
                Err(e) => r == Err::<(), ExecutionError>(e) && final(self)@ == old(self)@,
            },
    {
        internal(self.memory.set_memory_at_u8(a, v))
    }

    fn write16(&mut self, a: usize, v: u16) -> (r: Result<(), ExecutionError>)
        requires
            old(self).wf(),
        ensures
            final(self).wf(),
            match old(self)@.write16(a as int, v) {
                Ok(t) => r is Ok && final(self)@ == t,
                Err(e) => r == Err::<(), ExecutionError>(e) && final(self)@ == old(self)@,
            },
    {
        internal(self.memory.set_memory_at_u16(a, v))
    }

    /// Reads the byte at `IP` and moves `IP` past it.
    pub fn fetch_u8(&mut self) -> (r: Result<u8, ExecutionError>)
        requires
            old(self).wf(),
        ensures
            final(self).wf(),
            match old(self)@.fetch_u8() {
                Ok((t, b)) => r == Ok::<u8, ExecutionError>(b) && final(self)@ == t,
                Err(e) => r == Err::<u8, ExecutionError>(e) && final(self)@ == old(self)@,
            },
    {
        let ip = self.reg(IP);
        let b = self.read8(ip as usize)?;
        self.set_reg(IP, ip.wrapping_add(1));
        Ok(b)
    }

    /// Reads the big-endian word at `IP` and moves `IP` past it.
    pub fn fetch_u16(&mut self) -> (r: Result<u16, ExecutionError>)
        requires
            old(self).wf(),
        ensures
            final(self).wf(),
            match old(self)@.fetch_u16() {
                Ok((t, w)) => r == Ok::<u16, ExecutionError>(w) && final(self)@ == t,
                Err(e) => r == Err::<u16, ExecutionError>(e) && final(self)@ == old(self)@,
            },
    {
        let ip = self.reg(IP);
        let w = self.read16(ip as usize)?;
        self.set_reg(IP, ip.wrapping_add(2));
        Ok(w)
    }

    /// Reads a register operand at `IP` and moves `IP` past it.
    pub fn fetch_reg(&mut self) -> (r: Result<u8, ExecutionError>)
        requires
            old(self).wf(),
        ensures
            final(self).wf(),
            match old(self)@.fetch_reg() {
                Ok((t, x)) => r == Ok::<u8, ExecutionError>(x) && final(self)@ == t && x < REGISTER_COUNT,
                Err(e) => r == Err::<u8, ExecutionError>(e) && final(self)@ == old(self)@,
            },
    {
        let b = self.fetch_u8()?;
        Ok(b % REGISTER_COUNT)
    }

    fn fetch_operand(&mut self, word: bool) -> (r: Result<u16, ExecutionError>)
        requires
            old(self).wf(),
        ensures
            final(self).wf(),
            match old(self)@.fetch_operand(word) {
                Ok((t, x)) => r == Ok::<u16, ExecutionError>(x) && final(self)@ == t
                    && (!word ==> x < REGISTER_COUNT),
                Err(e) => r == Err::<u16, ExecutionError>(e) && final(self)@ == old(self)@,
            },
    {
        if word {
            self.fetch_u16()
        } else {
            let x = self.fetch_reg()?;
            Ok(x as u16)
        }
    }

    /// Pushes `value` on the stack.
    fn push(&mut self, value: u16) -> (r: Result<(), ExecutionError>)
        requires
            old(self).wf(),
        ensures
            final(self).wf(),
            match old(self)@.push(value) {
                Ok(t) => r is Ok && final(self)@ == t,
                Err(e) => r == Err::<(), ExecutionError>(e) && final(self)@ == old(self)@,
            },
    {
        let sp = self.reg(SP);
        self.write16(sp as usize, value)?;
        self.stack_frame_size = self.stack_frame_size.wrapping_add(2);
        self.set_reg(SP, sp.wrapping_sub(2));
        Ok(())
    }

    /// Pops a word off the stack.
    fn pop(&mut self) -> (r: Result<u16, ExecutionError>)
        requires
            old(self).wf(),
        ensures
            final(self).wf(),
            match old(self)@.pop() {
                Ok((t, v)) => r == Ok::<u16, ExecutionError>(v) && final(self)@ == t,
                Err(e) => r == Err::<u16, ExecutionError>(e) && final(self)@ == old(self)@,
            },
    {
        let sp = self.reg(SP);
        if sp > 0xFFFD {
            return Err(ExecutionError::BadReturn);
        }
        let head = sp + 2;
        let v = self.read16(head as usize)?;
        self.set_reg(SP, head);
        self.stack_frame_size = self.stack_frame_size.wrapping_sub(2);
        Ok(v)
    }

    fn read_w(&self, a: usize, word: bool) -> (r: Result<u16, ExecutionError>)
        ensures
            r == self@.read_w(a as int, word),
    {
        if word {
            self.read16(a)
        } else {
            let b = self.read8(a)?;
            Ok(b as u16)
        }
    }

    fn write_w(&mut self, a: usize, v: u16, word: bool) -> (r: Result<(), ExecutionError>)
        requires
            old(self).wf(),
        ensures
            final(self).wf(),
            match old(self)@.write_w(a as int, v, word) {
                Ok(t) => r is Ok && final(self)@ == t,
                Err(e) => r == Err::<(), ExecutionError>(e) && final(self)@ == old(self)@,
            },
    {
        if word {
            self.write16(a, v)
        } else {
            self.write8(a, (v % 256) as u8)
        }
    }

    /// Saves the caller's registers and frame size, opens a new frame and
    /// jumps to `address`.
    fn call(&mut self, address: u16) -> (r: Result<(), ExecutionError>)
        requires
            old(self).wf(),
        ensures
            final(self).wf(),
            match old(self)@.call(address) {
                Ok(t) => r is Ok && final(self)@ == t,
                Err(e) => r == Err::<(), ExecutionError>(e),
            },
    {
        let mut k: u8 = 0;
        while k < 9
            invariant
                self.wf(),
                k <= 9,
                old(self)@.push_saved(k as nat) == Ok::<CpuView, ExecutionError>(self@),
            decreases 9 - k,
        {
            let v = self.reg(saved_register(k));
            let r = self.push(v);
            if let Err(e) = r {
                proof {
                    lemma_push_saved_err(old(self)@, (k + 1) as nat, 9);
                }
                return Err(e);
            }
            k += 1;
        }
        self.push(self.stack_frame_size.wrapping_add(2))?;
        let sp = self.reg(SP);
        self.set_reg(FP, sp);
        self.stack_frame_size = 0;
        self.set_reg(IP, address);
        Ok(())
    }

    /// Drops the current frame and restores the caller's frame size and registers.
    fn restor(&mut self) -> (r: Result<(), ExecutionError>)
        requires
            old(self).wf(),
        ensures
            final(self).wf(),
            match old(self)@.ret() {
                Ok(t) => r is Ok && final(self)@ == t,
                Err(e) => r == Err::<(), ExecutionError>(e),
            },
    {
        let fp = self.reg(FP);
        self.set_reg(SP, fp);
        self.stack_frame_size = 2;
        let size = self.pop()?;
        self.stack_frame_size = size;
        self.set_reg(FP, size);
        let ghost start = self@;
        let mut k: u8 = 0;
        while k < 9
            invariant
                self.wf(),
                k <= 9,
                old(self)@.ret() == start.pop_saved(9),
                start.pop_saved(k as nat) == Ok::<CpuView, ExecutionError>(self@),
            decreases 9 - k,
        {
            let v = self.pop();
            match v {
                Ok(v) => {
                    self.set_reg(saved_register(8 - k), v);
                },
                Err(e) => {
                    proof {
                        lemma_pop_saved_err(start, (k + 1) as nat, 9);
                    }
                    return Err(e);
                },
            }
            k += 1;
        }
        Ok(())
    }

    fn run_move(&mut self, o: u8, x: u16, y: u16, z: u16) -> (r: Result<(), ExecutionError>)
        requires
            old(self).wf(),
            o <= 0x1A,
            layout_of(o) matches Some(l) && regs_ok(l, x, y, z),
        ensures
            final(self).wf(),
            match old(self)@.run_move(o, x, y, z) {
                Ok(t) => r is Ok && final(self)@ == t,
                Err(e) => r == Err::<(), ExecutionError>(e),
            },
            pointer_fault(o, x, y) ==> final(self)@ == old(self)@
                && r == Err::<(), ExecutionError>(ExecutionError::BadRegisterPtrLen),
    {
        if o == op::MOV_LIT_REG {
            let ry = y as u8;
            let wide = register_size(ry) == 2;
            self.set_reg(ry, x);
            self.set_flags(if wide { x } else { x % 256 }, wide, false);
            Ok(())
        } else if o == op::MOV_LIT_MEM8 {
            self.write_w(y as usize, x, false)?;
            self.set_flags(x % 256, false, false);
            Ok(())
        } else if o == op::MOV_LIT_MEM16 {
            self.write_w(y as usize, x, true)?;
            self.set_flags(x, true, false);
            Ok(())
        } else if o == op::MOV_REG_REG {
            let (rx, ry) = (x as u8, y as u8);
            let v = self.reg(rx);
            let wide = register_size(ry) == 2;
            self.set_reg(ry, v);
            self.set_flags(if wide { v } else { v % 256 }, wide, false);
            Ok(())
        } else if o == op::MOV_REG_MEM {
            let rx = x as u8;
            let v = self.reg(rx);
            let wide = register_size(rx) == 2;
            self.write_w(y as usize, v, wide)?;
            self.set_flags(v, wide, false);
            Ok(())
        } else if o == op::MOV_MEM_REG {
            let ry = y as u8;
            let wide = register_size(ry) == 2;
            let v = self.read_w(x as usize, wide)?;
            self.set_reg(ry, v);
            self.set_flags(v, wide, false);
            Ok(())
        } else if o == op::MOV_PTRREG_REG {
            let (rx, ry) = (x as u8, y as u8);
            if register_size(rx) != 2 {
                return Err(ExecutionError::BadRegisterPtrLen);
            }
            let wide = register_size(ry) == 2;
            let a = self.reg(rx);
            let v = self.read_w(a as usize, wide)?;
            self.set_reg(ry, v);
            self.set_flags(v, wide, false);
            Ok(())
        } else if o == op::MOV_REG_PTRREG {
            let (rx, ry) = (x as u8, y as u8);
            if register_size(ry) != 2 {
                return Err(ExecutionError::BadRegisterPtrLen);
            }
            let wide = register_size(rx) == 2;
            let v = self.reg(rx);
            let a = self.reg(ry);
            self.write_w(a as usize, v, wide)?;
            self.set_flags(v, wide, false);
            Ok(())
        } else {
            let (ry, rz) = (y as u8, z as u8);
            if register_size(ry) != 2 {
                return Err(ExecutionError::BadRegisterPtrLen);
            }
            let offset = self.reg(ry);
            let v = self.read16(x as usize + offset as usize)?;
            let wide = register_size(rz) == 2;
            self.set_reg(rz, v);
            self.set_flags(if wide { v } else { v % 256 }, wide, false);
            Ok(())
        }
    }

    /// Stores `v` reduced to 16 bits in `ACC`, with the carry telling whether it fit.
    fn set_acc(&mut self, v: u16, carry: bool)
        requires
            old(self).wf(),
        ensures
            final(self).wf(),
            final(self)@ == old(self)@.set_reg(ACC as int, v).with_flags(v, true, carry),
    {
        self.set_reg(ACC, v);
        self.set_flags(v, true, carry);
    }

    fn run_add(&mut self, o: u8, x: u16, y: u16)
        requires
            old(self).wf(),
            o == op::ADD_REG_REG || o == op::ADD_REG_LIT || o == op::MUL_REG_REG || o == op::MUL_REG_LIT,
            layout_of(o) matches Some(l) && regs_ok(l, x, y, 0),
        ensures
            final(self).wf(),
            final(self)@ == old(self)@.run_arith(o, x, y),
    {
        let a = self.reg(x as u8);
        let b = if o == op::ADD_REG_REG || o == op::MUL_REG_REG { self.reg(y as u8) } else { y };
        let v = if o == op::ADD_REG_REG || o == op::ADD_REG_LIT {
            a as u32 + b as u32
        } else {
            assert(a as int * b as int <= 0xFFFF * 0xFFFF) by (nonlinear_arith)
                requires a <= 0xFFFF, b <= 0xFFFF;
            a as u32 * b as u32
        };
        self.set_acc((v % 0x1_0000) as u16, v > 0xFFFF);
    }

    fn run_sub(&mut self, o: u8, x: u16, y: u16)
        requires
            old(self).wf(),
            o == op::SUB_REG_LIT || o == op::SUB_LIT_REG || o == op::SUB_REG_REG,
            layout_of(o) matches Some(l) && regs_ok(l, x, y, 0),
        ensures
            final(self).wf(),
            final(self)@ == old(self)@.run_arith(o, x, y),
    {
        let (a, b) = if o == op::SUB_REG_LIT {
            (y, self.reg(x as u8))
        } else if o == op::SUB_LIT_REG {
            (self.reg(y as u8), x)
        } else {
            (self.reg(y as u8), self.reg(x as u8))
        };
        let res = wrapping_diff(a, b);
        self.set_acc(res, a < b);
    }

    fn run_cmp(&mut self, o: u8, x: u16, y: u16)
        requires
            old(self).wf(),
            o == op::CMP_REG_REG || o == op::CMP_REG_LIT,
            layout_of(o) matches Some(l) && regs_ok(l, x, y, 0),
        ensures
            final(self).wf(),
            final(self)@ == old(self)@.run_arith(o, x, y),
    {
        let a = self.reg(x as u8);
        let b = if o == op::CMP_REG_REG { self.reg(y as u8) } else { y };
        let res = wrapping_diff(a, b);
        self.set_flags(res, true, a < b);
    }

    fn run_step_by_one(&mut self, o: u8, x: u16)
        requires
            old(self).wf(),
            o == op::INC_REG || o == op::DEC_REG,
            layout_of(o) matches Some(l) && regs_ok(l, x, 0, 0),
        ensures
            final(self).wf(),
            final(self)@ == old(self)@.run_arith(o, x, 0),
    {
        let rx = x as u8;
        let wide = register_size(rx) == 2;
        let m: u32 = if wide { 0x1_0000 } else { 0x100 };
        let a = self.reg(rx) as u32;
        if o == op::INC_REG {
            let res = ((a + 1) % m) as u16;
            self.set_reg(rx, res);
            self.set_flags(res, wide, a + 1 >= m);
        } else {
            let res = ((a + m - 1) % m) as u16;
            self.set_reg(rx, res);
            self.set_flags(res, wide, a == 0);
        }
    }

    fn run_arith(&mut self, o: u8, x: u16, y: u16)
        requires
            old(self).wf(),
            0x1A < o <= 0x2A,
            layout_of(o) matches Some(l) && regs_ok(l, x, y, 0),
        ensures
            final(self).wf(),
            final(self)@ == old(self)@.run_arith(o, x, y),
    {
        if o == op::ADD_REG_REG || o == op::ADD_REG_LIT || o == op::MUL_REG_REG || o == op::MUL_REG_LIT {
            self.run_add(o, x, y);
        } else if o == op::INC_REG || o == op::DEC_REG {
            self.run_step_by_one(o, x);
        } else if o == op::CMP_REG_REG || o == op::CMP_REG_LIT {
            self.run_cmp(o, x, y);
        } else {
            self.run_sub(o, x, y);
        }
    }

    fn run_jump(&mut self, o: u8, x: u16)
        requires
            old(self).wf(),
            op::JMP_LIT <= o <= op::JLE_REG,
            layout_of(o) matches Some(l) && regs_ok(l, x, 0, 0),
        ensures
            final(self).wf(),
            final(self)@ == old(self)@.run_jump(o, x),
    {
        let target = if o % 2 == 0 { x } else { self.reg(x as u8) };
        let z = self.flags % 2 == 1;
        let n = (self.flags / 2) % 2 == 1;
        let taken = if o == op::JEQ_LIT || o == op::JEQ_REG {
            z
        } else if o == op::JNE_LIT || o == op::JNE_REG {
            !z
        } else if o == op::JGT_LIT || o == op::JGT_REG {
            !z && !n
        } else if o == op::JGE_LIT || o == op::JGE_REG {
            !n
        } else if o == op::JLT_LIT || o == op::JLT_REG {
            !z && n
        } else if o == op::JLE_LIT || o == op::JLE_REG {
            n
        } else {
            true
        };
        if taken {
            self.set_reg(IP, target);
        }
    }

    fn run_stack(&mut self, o: u8, x: u16) -> (r: Result<(), ExecutionError>)
        requires
            old(self).wf(),
            op::PSH_LIT <= o <= op::POP_PTRREG16,
            layout_of(o) matches Some(l) && regs_ok(l, x, 0, 0),
        ensures
            final(self).wf(),
            match old(self)@.run_stack(o, x) {
                Ok(t) => r is Ok && final(self)@ == t,
                Err(e) => r == Err::<(), ExecutionError>(e),
            },
            pointer_fault(o, x, 0) ==> final(self)@ == old(self)@
                && r == Err::<(), ExecutionError>(ExecutionError::BadRegisterPtrLen),
    {
        if o == op::PSH_LIT || o == op::PSH_REG || o == op::PSH_MEM8 || o == op::PSH_MEM16
            || o == op::PSH_PTRREG8 || o == op::PSH_PTRREG16 {
            let v = if o == op::PSH_LIT {
                x
            } else if o == op::PSH_REG {
                self.reg(x as u8)
            } else if o == op::PSH_MEM8 || o == op::PSH_MEM16 {
                self.read_w(x as usize, o == op::PSH_MEM16)?
            } else {
                if register_size(x as u8) != 2 {
                    return Err(ExecutionError::BadRegisterPtrLen);
                }
                let a = self.reg(x as u8);
                self.read_w(a as usize, o == op::PSH_PTRREG16)?
            };
            self.push(v)?;
            self.set_flags(v, true, false);
            Ok(())
        } else if o == op::POP_REG {
            let rx = x as u8;
            let v = self.pop()?;
            let wide = register_size(rx) == 2;
            self.set_reg(rx, v);
            self.set_flags(if wide { v } else { v % 256 }, wide, false);
            Ok(())
        } else {
            let word = o == op::POP_MEM16 || o == op::POP_PTRREG16;
            let a = if o == op::POP_MEM8 || o == op::POP_MEM16 {
                x
            } else {
                if register_size(x as u8) != 2 {
                    return Err(ExecutionError::BadRegisterPtrLen);
                }
                self.reg(x as u8)
            };
            let v = self.pop()?;
            self.write_w(a as usize, v, word)?;
            self.set_flags(if word { v } else { v % 256 }, word, false);
            Ok(())
        }
    }

    fn run_call(&mut self, o: u8, x: u16) -> (r: Result<(), ExecutionError>)
        requires
            old(self).wf(),
            op::CALL_LIT <= o <= op::RET,
            layout_of(o) matches Some(l) && regs_ok(l, x, 0, 0),
        ensures
            final(self).wf(),
            match old(self)@.run_call(o, x) {
                Ok(t) => r is Ok && final(self)@ == t,
                Err(e) => r == Err::<(), ExecutionError>(e),
            },
            pointer_fault(o, x, 0) ==> final(self)@ == old(self)@
                && r == Err::<(), ExecutionError>(ExecutionError::BadRegisterPtrLen),
    {
        if o == op::CALL_LIT {
            self.call(x)
        } else if o == op::CALL_REG {
            if register_size(x as u8) != 2 {
                return Err(ExecutionError::BadRegisterPtrLen);
            }
            let a = self.reg(x as u8);
            self.call(a)
        } else {
            self.restor()
        }
    }

    fn run_logic(&mut self, o: u8, x: u16, y: u16)
        requires
            old(self).wf(),
            op::LSF_REG_REG <= o <= op::NOT,
            layout_of(o) matches Some(l) && regs_ok(l, x, y, 0),
        ensures
            final(self).wf(),
            final(self)@ == old(self)@.run_logic(o, x, y),
    {
        let rx = x as u8;
        let a = self.reg(rx);
        let b = if o % 2 == 0 && o != op::NOT { self.reg(y as u8) } else { y };
        let v = if o == op::LSF_REG_REG || o == op::LSF_REG_LIT {
            if b >= 16 { 0 } else { a << b }
        } else if o == op::RSF_REG_REG || o == op::RSF_REG_LIT {
            if b >= 16 { 0 } else { a >> b }
        } else if o == op::AND_REG_REG || o == op::AND_REG_LIT {
            a & b
        } else if o == op::OR_REG_REG || o == op::OR_REG_LIT {
            a | b
        } else if o == op::XOR_REG_REG || o == op::XOR_REG_LIT {
            a ^ b
        } else {
            !a
        };
        let wide = register_size(rx) == 2;
        let res = if wide { v } else { v % 256 };
        self.set_reg(rx, res);
        self.set_flags(res, wide, false);
    }

    /// Runs opcode `o` on operands already fetched.
    fn run(&mut self, o: u8, x: u16, y: u16, z: u16) -> (r: Result<(), ExecutionError>)
        requires
            old(self).wf(),
            layout_of(o) matches Some(l) && regs_ok(l, x, y, z),
        ensures
            final(self).wf(),
            match old(self)@.run(o, x, y, z) {
                Ok(t) => r is Ok && final(self)@ == t,
                Err(e) => r == Err::<(), ExecutionError>(e),
            },
            o > 0x6A ==> final(self)@ == old(self)@,
            pointer_fault(o, x, y) ==> final(self)@ == old(self)@
                && r == Err::<(), ExecutionError>(ExecutionError::BadRegisterPtrLen),
    {
        if o <= 0x1A {
            self.run_move(o, x, y, z)
        } else if o <= 0x2A {
            self.run_arith(o, x, y);
            Ok(())
        } else if o <= 0x3D {
            self.run_jump(o, x);
            Ok(())
        } else if o <= 0x4A {
            self.run_stack(o, x)
        } else if o <= 0x52 {
            self.run_call(o, x)
        } else if o <= 0x6A {
            self.run_logic(o, x, y);
            Ok(())
        } else {
            Err(ExecutionError::EndOfExecution)
        }
    }

    /// Fetches the operands of opcode `o` and runs it.
    pub fn execute(&mut self, o: u8) -> (r: Result<(), ExecutionError>)
        requires
            old(self).wf(),
        ensures
            final(self).wf(),
            match old(self)@.execute(o) {
                Ok(t) => r is Ok && final(self)@ == t,
                Err(e) => r == Err::<(), ExecutionError>(e),
            },
            layout_of(o) is None || o == op::END ==> final(self)@ == old(self)@,
            match layout_of(o) {
                Some(l) => match old(self)@.fetch_operands(l) {
                    Ok((t, x, y, z)) => pointer_fault(o, x, y) ==> final(self)@ == t
                        && r == Err::<(), ExecutionError>(ExecutionError::BadRegisterPtrLen),
                    Err(_) => true,
                },
                None => true,
            },
    {
        let l = match layout(o) {
            Some(l) => l,
            None => return Err(ExecutionError::UnexpectedInstruction(o)),
        };
        let x = if l.0 >= 1 { self.fetch_operand(l.1)? } else { 0 };
        let y = if l.0 >= 2 { self.fetch_operand(l.2)? } else { 0 };
        let z = if l.0 >= 3 { self.fetch_operand(l.3)? } else { 0 };
        self.run(o, x, y, z)
    }

    /// Runs one instruction. Returns `false` when the CPU stops: on `END`
    /// or on any error. Stopping on `END` or on a byte that is no opcode
    /// leaves the state as fetching that byte left it.
    pub fn step(&mut self) -> (running: bool)
        requires
            old(self).wf(),
        ensures
            final(self).wf(),
            running == old(self)@.step() is Ok,
            running ==> old(self)@.step() == Ok::<CpuView, ExecutionError>(final(self)@),
            match old(self)@.fetch_u8() {
                Ok((t, o)) => layout_of(o) is None || o == op::END ==> final(self)@ == t,
                Err(_) => final(self)@ == old(self)@,
            },
    {
        match self.fetch_u8() {
            Ok(o) => self.execute(o).is_ok(),
            Err(_) => false,
        }
    }

    /// A new machine, in `initial_state()`.
    pub fn new() -> (c: Self)
        ensures
            c.wf(),
            c@ == initial_state(),
    {
        let mut memory = MemoryMap::new();
        let screen = Screen::new(SCREEN_WIDTH, SCREEN_HEIGHT);
        let _ = memory.add_device(Device::Screen(screen), SCREEN_BASE);
        let mut c = Self { memory, registers: Memory::new(REGISTER_LEN), stack_frame_size: 0, flags: 0 };
        c.set_reg(SP, STACK_TOP);
        c.set_reg(FP, STACK_TOP);
        assert(c@.mem =~= initial_state().mem);
        c
    }

    /// Value of the register called `name`.
    pub fn get_register(&self, name: &str) -> (r: Result<u16, MemoryError>)
        requires
            self.wf(),
        ensures
            match register_index(name@) {
                Some(id) => r == Ok::<u16, MemoryError>(self@.reg(id)),
                None => r matches Err(MemoryError::NoRegister(n)) && n@ == name@,
            },
    {
        match register_id(name) {
            Some(id) => Ok(self.reg(id)),
            None => Err(MemoryError::NoRegister(name.to_owned())),
        }
    }

    /// Sets the register called `name`; a half takes the low byte of `data`.
    pub fn set_register(&mut self, name: &str, data: u16) -> (r: Result<(), MemoryError>)
        requires
            old(self).wf(),
        ensures
            final(self).wf(),
            match register_index(name@) {
                Some(id) => r is Ok && final(self)@ == old(self)@.set_reg(id, data),
                None => (r matches Err(MemoryError::NoRegister(n)) && n@ == name@)
                    && final(self)@ == old(self)@,
            },
    {
        match register_id(name) {
            Some(id) => {
                self.set_reg(id, data);
                Ok(())
            },
            None => Err(MemoryError::NoRegister(name.to_owned())),
        }
    }

    /// The flags byte: `F_ZERO`, `F_NEG` and `F_CARRY`.
    pub fn flags(&self) -> (f: u8)
        ensures
            f == self@.flags,
    {
        self.flags
    }

    /// Whether the last flag-producing instruction gave zero.
    pub fn flag_zero(&self) -> (b: bool)
        ensures
            b == zero_set(self@.flags),
    {
        self.flags % 2 == 1
    }

    /// Whether the last flag-producing instruction gave a value with its top bit set.
    pub fn flag_neg(&self) -> (b: bool)
        ensures
            b == neg_set(self@.flags),
    {
        (self.flags / 2) % 2 == 1
    }

    /// Whether the last arithmetic instruction overflowed.
    pub fn flag_carry(&self) -> (b: bool)
        ensures
            b == carry_set(self@.flags),
    {
        (self.flags / 4) % 2 == 1
    }

    /// Loads a program image into the address space from address 0.
    pub fn set_instruction(&mut self, instructions: &[u8])
        requires
            old(self).wf(),
        ensures
            final(self).wf(),
            final(self)@ == (CpuView { mem: load(old(self)@.mem, instructions@, instructions@.len()), ..old(self)@ }),
    {
        let mut i: usize = 0;
        while i < instructions.len()
            invariant
                self.wf(),
                i <= instructions@.len(),
                self@ == (CpuView { mem: load(old(self)@.mem, instructions@, i as nat), ..old(self)@ }),
            decreases instructions@.len() - i,
        {
            let _ = self.memory.set_memory_at_u8(i, instructions[i]);
            i += 1;
        }
    }

    /// Hands out what the screen printed since the last call.
    pub fn take_output(&mut self) -> (o: Vec<u8>)
        requires
            old(self).wf(),
        ensures
            final(self).wf(),
            o@ == pending_output(old(self)@.mem),
            final(self)@ == (CpuView {
                mem: old(self)@.mem.map_values(|r: RegionView| drained(r)),
                ..old(self)@
            }),
    {
        self.memory.take_output()
    }
}

} // verus!
