//! A small fetch-decode-execute machine whose memory is its own program.
use vstd::prelude::*;

verus! {

/// An 8-bit operand: a register, or the memory byte at `ptr + c`.
#[derive(Debug, Clone, Copy, PartialEq, Eq)]
pub enum MvArg {
    A,
    B,
    C,
    D,
    E,
    F,
    PtrC,
}

/// A 32-bit register operand.
#[derive(Debug, Clone, Copy, PartialEq, Eq)]
pub enum Mv32Arg {
    La,
    Lb,
    Lc,
    Ld,
    Ptr,
    Pc,
}

/// A decoded instruction.
#[derive(Debug, Clone, Copy, PartialEq, Eq)]
pub enum Instr {
    Add,
    Aptr(u8),
    Cmp,
    Halt,
    Jez(u32),
    Jnz(u32),
    Mv(MvArg, MvArg),
    Mv32(Mv32Arg, Mv32Arg),
    Mvi(MvArg, u8),
    Mvi32(Mv32Arg, u32),
    Out,
    Sub,
    Xor,
}

/// Whether the machine goes on after an instruction.
#[derive(Debug, Clone, Copy, PartialEq, Eq)]
pub enum Status {
    Continue,
    Stop,
}

/// Why a run stopped without reaching `Halt`.
#[derive(Debug, Clone, Copy, PartialEq, Eq)]
pub enum VmError {
    /// A byte that encodes no instruction or operand.
    InvalidInstruction,
    /// A fetch or an indirect access outside memory, or an address overflow.
    MemoryFault,
    /// The run was cut off after the given number of steps.
    StepLimit,
}

/// The abstract state of the machine.
pub struct VmState {
    pub a: u8,
    pub b: u8,
    pub c: u8,
    pub d: u8,
    pub e: u8,
    pub f: u8,
    pub la: u32,
    pub lb: u32,
    pub lc: u32,
    pub ld: u32,
    pub ptr: u32,
    pub pc: u32,
    pub memory: Seq<u8>,
    pub output: Seq<u8>,
}

/// The little-endian 32-bit value at `m[i..i + 4]`.
pub open spec fn le32(m: Seq<u8>, i: int) -> u32 {
    ((m[i] as int) + (m[i + 1] as int) * 0x100 + (m[i + 2] as int) * 0x10000 + (m[i + 3] as int)
        * 0x1000000) as u32
}

/// The 32-bit immediate that follows the opcode at `pc`; 0 when fewer than
/// four bytes follow.
pub open spec fn imm32_at(m: Seq<u8>, pc: int) -> u32 {
    if pc + 5 <= m.len() {
        le32(m, pc + 1)
    } else {
        0
    }
}

/// The 8-bit operand that a 3-bit field names.
pub open spec fn mv_arg_of(x: int) -> Option<MvArg> {
    if x == 1 {
        Some(MvArg::A)
    } else if x == 2 {
        Some(MvArg::B)
    } else if x == 3 {
        Some(MvArg::C)
    } else if x == 4 {
        Some(MvArg::D)
    } else if x == 5 {
        Some(MvArg::E)
    } else if x == 6 {
        Some(MvArg::F)
    } else if x == 7 {
        Some(MvArg::PtrC)
    } else {
        None
    }
}

/// The 32-bit operand that a 3-bit field names.
pub open spec fn mv32_arg_of(x: int) -> Option<Mv32Arg> {
    if x == 1 {
        Some(Mv32Arg::La)
    } else if x == 2 {
        Some(Mv32Arg::Lb)
    } else if x == 3 {
        Some(Mv32Arg::Lc)
    } else if x == 4 {
        Some(Mv32Arg::Ld)
    } else if x == 5 {
        Some(Mv32Arg::Ptr)
    } else if x == 6 {
        Some(Mv32Arg::Pc)
    } else {
        None
    }
}

/// Decoding of the move family: two opcode bits, three destination bits and
/// three source bits; a source field of 0 means that an immediate follows.
pub open spec fn decode_mv(m: Seq<u8>, pc: int) -> Result<(Instr, int), VmError> {
    let op = m[pc] / 64;
    let dest = (m[pc] / 8) % 8;
    let src = m[pc] % 8;
    if op == 1 {
        match mv_arg_of(dest as int) {
            None => Err(VmError::InvalidInstruction),
            Some(d) => if src == 0 {
                if pc + 1 < m.len() {
                    Ok((Instr::Mvi(d, m[pc + 1]), 2))
                } else {
                    Err(VmError::MemoryFault)
                }
            } else {
                match mv_arg_of(src as int) {
                    Some(s) => Ok((Instr::Mv(d, s), 1)),
                    None => Err(VmError::InvalidInstruction),
                }
            },
        }
    } else if op == 2 {
        match mv32_arg_of(dest as int) {
            None => Err(VmError::InvalidInstruction),
            Some(d) => if src == 0 {
                Ok((Instr::Mvi32(d, imm32_at(m, pc)), 5))
            } else {
                match mv32_arg_of(src as int) {
                    Some(s) => Ok((Instr::Mv32(d, s), 1)),
                    None => Err(VmError::InvalidInstruction),
                }
            },
        }
    } else {
        Err(VmError::InvalidInstruction)
    }
}

/// The instruction at `pc` and its size in bytes.
pub open spec fn decode(m: Seq<u8>, pc: int) -> Result<(Instr, int), VmError> {
    if pc < 0 || pc >= m.len() {
        Err(VmError::MemoryFault)
    } else {
        let b = m[pc];
        if b == 0x01 {
            Ok((Instr::Halt, 1))
        } else if b == 0x02 {
            Ok((Instr::Out, 1))
        } else if b == 0x21 {
            Ok((Instr::Jez(imm32_at(m, pc)), 5))
        } else if b == 0x22 {
            Ok((Instr::Jnz(imm32_at(m, pc)), 5))
        } else if b == 0xC1 {
            Ok((Instr::Cmp, 1))
        } else if b == 0xC2 {
            Ok((Instr::Add, 1))
        } else if b == 0xC3 {
            Ok((Instr::Sub, 1))
        } else if b == 0xC4 {
            Ok((Instr::Xor, 1))
        } else if b == 0xE1 {
            if pc + 1 < m.len() {
                Ok((Instr::Aptr(m[pc + 1]), 2))
            } else {
                Err(VmError::MemoryFault)
            }
        } else {
            decode_mv(m, pc)
        }
    }
}

/// The value of an 8-bit operand.
pub open spec fn read8(st: VmState, arg: MvArg) -> Result<u8, VmError> {
    match arg {
        MvArg::A => Ok(st.a),
        MvArg::B => Ok(st.b),
        MvArg::C => Ok(st.c),
        MvArg::D => Ok(st.d),
        MvArg::E => Ok(st.e),
        MvArg::F => Ok(st.f),
        MvArg::PtrC => {
            let i = st.ptr + st.c;
            if i < st.memory.len() {
                Ok(st.memory[i])
            } else {
                Err(VmError::MemoryFault)
            }
        },
    }
}

/// The state after storing `v` into an 8-bit operand.
pub open spec fn write8(st: VmState, arg: MvArg, v: u8) -> Result<VmState, VmError> {
    match arg {
        MvArg::A => Ok(VmState { a: v, ..st }),
        MvArg::B => Ok(VmState { b: v, ..st }),
        MvArg::C => Ok(VmState { c: v, ..st }),
        MvArg::D => Ok(VmState { d: v, ..st }),
        MvArg::E => Ok(VmState { e: v, ..st }),
        MvArg::F => Ok(VmState { f: v, ..st }),
        MvArg::PtrC => {
            let i = st.ptr + st.c;
            if i < st.memory.len() {
                Ok(VmState { memory: st.memory.update(i, v), ..st })
            } else {
                Err(VmError::MemoryFault)
            }
        },
    }
}

/// The value of a 32-bit register.
pub open spec fn read32(st: VmState, arg: Mv32Arg) -> u32 {
    match arg {
        Mv32Arg::La => st.la,
        Mv32Arg::Lb => st.lb,
        Mv32Arg::Lc => st.lc,
        Mv32Arg::Ld => st.ld,
        Mv32Arg::Ptr => st.ptr,
        Mv32Arg::Pc => st.pc,
    }
}

/// The state after storing `v` into a 32-bit register.
pub open spec fn write32(st: VmState, arg: Mv32Arg, v: u32) -> VmState {
    match arg {
        Mv32Arg::La => VmState { la: v, ..st },
        Mv32Arg::Lb => VmState { lb: v, ..st },
        Mv32Arg::Lc => VmState { lc: v, ..st },
        Mv32Arg::Ld => VmState { ld: v, ..st },
        Mv32Arg::Ptr => VmState { ptr: v, ..st },
        Mv32Arg::Pc => VmState { pc: v, ..st },
    }
}

/// Executing `instr` in `st`, whose `pc` already points past it: the next
/// state, and whether the machine halted.
pub open spec fn execute(st: VmState, instr: Instr) -> Result<(VmState, bool), VmError> {
    match instr {
        Instr::Add => Ok((VmState { a: ((st.a + st.b) % 256) as u8, ..st }, false)),
        Instr::Aptr(i) => if st.ptr + i <= u32::MAX {
            Ok((VmState { ptr: (st.ptr + i) as u32, ..st }, false))
        } else {
            Err(VmError::MemoryFault)
        },
        Instr::Cmp => Ok((
            VmState {
                f: if st.a == st.b {
                    0u8
                } else {
                    1u8
                },
                ..st
            },
            false,
        )),
        Instr::Halt => Ok((st, true)),
        Instr::Jez(t) => Ok((
            if st.f == 0 {
                VmState { pc: t, ..st }
            } else {
                st
            },
            false,
        )),
        Instr::Jnz(t) => Ok((
            if st.f != 0 {
                VmState { pc: t, ..st }
            } else {
                st
            },
            false,
        )),
        Instr::Mv(d, s) => match read8(st, s) {
            Ok(v) => match write8(st, d, v) {
                Ok(n) => Ok((n, false)),
                Err(e) => Err(e),
            },
            Err(e) => Err(e),
        },
        Instr::Mv32(d, s) => Ok((write32(st, d, read32(st, s)), false)),
        Instr::Mvi(d, v) => match write8(st, d, v) {
            Ok(n) => Ok((n, false)),
            Err(e) => Err(e),
        },
        Instr::Mvi32(d, v) => Ok((write32(st, d, v), false)),
        Instr::Out => Ok((VmState { output: st.output.push(st.a), ..st }, false)),
        Instr::Sub => Ok((VmState { a: ((st.a - st.b + 256) % 256) as u8, ..st }, false)),
        Instr::Xor => Ok((VmState { a: st.a ^ st.b, ..st }, false)),
    }
}

/// One fetch-execute cycle: decode at `pc`, advance `pc` past the
/// instruction, execute it.
pub open spec fn step(st: VmState) -> Result<(VmState, bool), VmError> {
    match decode(st.memory, st.pc as int) {
        Err(e) => Err(e),
        Ok((instr, size)) => if st.pc + size > u32::MAX {
            Err(VmError::MemoryFault)
        } else {
            execute(VmState { pc: (st.pc + size) as u32, ..st }, instr)
        },
    }
}

/// Running from `st` for at most `fuel` cycles: the state in which `Halt`
/// was executed, or why the run stopped before.
pub open spec fn run_for(st: VmState, fuel: nat) -> Result<VmState, VmError>
    decreases fuel,
{
    if fuel == 0 {
        Err(VmError::StepLimit)
    } else {
        match step(st) {
            Err(e) => Err(e),
            Ok((n, halted)) => if halted {
                Ok(n)
            } else {
                run_for(n, (fuel - 1) as nat)
            },
        }
    }
}

/// The state in which a program starts: all registers zero, no output.
pub open spec fn initial_state(program: Seq<u8>) -> VmState {
    VmState {
        a: 0,
        b: 0,
        c: 0,
        d: 0,
        e: 0,
        f: 0,
        la: 0,
        lb: 0,
        lc: 0,
        ld: 0,
        ptr: 0,
        pc: 0,
        memory: program,
        output: Seq::empty(),
    }
}

/// The machine: six 8-bit registers, four 32-bit loop registers, a memory
/// cursor, a program counter, the memory image and the bytes sent out.
pub struct TomtelVm {
    pub a: u8,
    pub b: u8,
    pub c: u8,
    pub d: u8,
    pub e: u8,
    pub f: u8,
    pub la: u32,
    pub lb: u32,
    pub lc: u32,
    pub ld: u32,
    pub ptr: u32,
    pub pc: u32,
    pub output: Vec<u8>,
    pub memory: Vec<u8>,
}

impl View for TomtelVm {
    type V = VmState;

    open spec fn view(&self) -> VmState {
        VmState {
            a: self.a,
            b: self.b,
            c: self.c,
            d: self.d,
            e: self.e,
            f: self.f,
            la: self.la,
            lb: self.lb,
            lc: self.lc,
            ld: self.ld,
            ptr: self.ptr,
            pc: self.pc,
            memory: self.memory@,
            output: self.output@,
        }
    }
}

impl TomtelVm {
    /// A machine with zeroed registers whose memory is a copy of `memory`
    /// and whose output starts as `output`.
    pub fn new(output: Vec<u8>, memory: &[u8]) -> (r: Self)
        ensures
            r@ == (VmState { output: output@, ..initial_state(memory@) }),
    {
        let mut mem: Vec<u8> = Vec::new();
        let mut k: usize = 0;
        while k < memory.len()
            invariant
                k <= memory@.len(),
                mem@ == memory@.take(k as int),
            decreases memory@.len() - k,
        {
            mem.push(memory[k]);
            proof {
                assert(memory@.take(k + 1) == memory@.take(k as int).push(memory@[k as int]));
            }
            k = k + 1;
        }
        proof {
            assert(memory@.take(k as int) == memory@);
        }
        TomtelVm {
            a: 0,
            b: 0,
            c: 0,
            d: 0,
            e: 0,
            f: 0,
            la: 0,
            lb: 0,
            lc: 0,
            ld: 0,
            ptr: 0,
            pc: 0,
            output,
            memory: mem,
        }
    }

    /// The bytes sent out so far.
    pub fn output(self) -> (r: Vec<u8>)
        ensures
            r@ == self@.output,
    {
        self.output
    }

    /// The 8-bit immediate after the opcode at `pc`.
    fn imm8(&self) -> (r: Result<u8, VmError>)
        requires
            (self.pc as int) < self.memory@.len(),
        ensures
            r == (if self.pc + 1 < self.memory@.len() {
                Ok::<u8, VmError>(self.memory@[self.pc + 1])
            } else {
                Err::<u8, VmError>(VmError::MemoryFault)
            }),
    {
        let i = self.pc as usize;
        if i < self.memory.len() - 1 {
            Ok(self.memory[i + 1])
        } else {
            Err(VmError::MemoryFault)
        }
    }

    /// The little-endian 32-bit immediate after the opcode at `pc`.
    fn imm32(&self) -> (r: u32)
        requires
            (self.pc as int) < self.memory@.len(),
        ensures
            r == imm32_at(self.memory@, self.pc as int),
    {
        let i = self.pc as usize;
        if self.memory.len() >= 5 && i <= self.memory.len() - 5 {
            (self.memory[i + 1] as u32) + (self.memory[i + 2] as u32) * 0x100 + (self.memory[i
                + 3] as u32) * 0x10000 + (self.memory[i + 4] as u32) * 0x1000000
        } else {
            0
        }
    }

    /// The 8-bit operand that a 3-bit field names.
    fn parse_mv_arg(arg: u8) -> (r: Option<MvArg>)
        ensures
            r == mv_arg_of(arg as int),
    {
        match arg {
            1 => Some(MvArg::A),
            2 => Some(MvArg::B),
            3 => Some(MvArg::C),
            4 => Some(MvArg::D),
            5 => Some(MvArg::E),
            6 => Some(MvArg::F),
            7 => Some(MvArg::PtrC),
            _ => None,
        }
    }

    /// The 32-bit operand that a 3-bit field names.
    fn parse_mv32_arg(arg: u8) -> (r: Option<Mv32Arg>)
        ensures
            r == mv32_arg_of(arg as int),
    {
        match arg {
            1 => Some(Mv32Arg::La),
            2 => Some(Mv32Arg::Lb),
            3 => Some(Mv32Arg::Lc),
            4 => Some(Mv32Arg::Ld),
            5 => Some(Mv32Arg::Ptr),
            6 => Some(Mv32Arg::Pc),
            _ => None,
        }
    }

    /// Decodes a move-family instruction from the byte `instr` at `pc`.
    fn parse_mv(&self, instr: u8) -> (r: Result<(Instr, u8), VmError>)
        requires
            (self.pc as int) < self.memory@.len(),
            instr == self.memory@[self.pc as int],
        ensures
            match decode_mv(self.memory@, self.pc as int) {
                Ok((i, n)) => r == Ok::<(Instr, u8), VmError>((i, n as u8)) && 1 <= n <= 5,
                Err(e) => r == Err::<(Instr, u8), VmError>(e),
            },
    {
        let opcode = instr / 64;
        let dest = (instr / 8) % 8;
        let src = instr % 8;
        if opcode == 1 {
            match Self::parse_mv_arg(dest) {
                None => Err(VmError::InvalidInstruction),
                Some(d) => if src == 0 {
                    match self.imm8() {
                        Ok(v) => Ok((Instr::Mvi(d, v), 2)),
                        Err(e) => Err(e),
                    }
                } else {
                    match Self::parse_mv_arg(src) {
                        Some(s) => Ok((Instr::Mv(d, s), 1)),
                        None => Err(VmError::InvalidInstruction),
                    }
                },
            }
        } else if opcode == 2 {
            match Self::parse_mv32_arg(dest) {
                None => Err(VmError::InvalidInstruction),
                Some(d) => if src == 0 {
                    Ok((Instr::Mvi32(d, self.imm32()), 5))
                } else {
                    match Self::parse_mv32_arg(src) {
                        Some(s) => Ok((Instr::Mv32(d, s), 1)),
                        None => Err(VmError::InvalidInstruction),
                    }
                },
            }
        } else {
            Err(VmError::InvalidInstruction)
        }
    }

    /// Decodes the instruction at `pc`, with its size in bytes.
    fn fetch_instr(&self) -> (r: Result<(Instr, u8), VmError>)
        ensures
            match decode(self.memory@, self.pc as int) {
                Ok((i, n)) => r == Ok::<(Instr, u8), VmError>((i, n as u8)) && 1 <= n <= 5,
                Err(e) => r == Err::<(Instr, u8), VmError>(e),
            },
    {
        if self.pc as usize >= self.memory.len() {
            return Err(VmError::MemoryFault);
        }
        let b = self.memory[self.pc as usize];
        match b {
            0x01 => Ok((Instr::Halt, 1)),
            0x02 => Ok((Instr::Out, 1)),
            0x21 => Ok((Instr::Jez(self.imm32()), 5)),
            0x22 => Ok((Instr::Jnz(self.imm32()), 5)),
            0xC1 => Ok((Instr::Cmp, 1)),
            0xC2 => Ok((Instr::Add, 1)),
            0xC3 => Ok((Instr::Sub, 1)),
            0xC4 => Ok((Instr::Xor, 1)),
            0xE1 => match self.imm8() {
                Ok(v) => Ok((Instr::Aptr(v), 2)),
                Err(e) => Err(e),
            },
            _ => self.parse_mv(b),
        }
    }

    /// The value of an 8-bit operand; `PtrC` reads memory at `ptr + c`.
    fn get_reg8_value(&self, arg: MvArg) -> (r: Result<u8, VmError>)
        ensures
            r == read8(self@, arg),
    {
        match arg {
            MvArg::A => Ok(self.a),
            MvArg::B => Ok(self.b),
            MvArg::C => Ok(self.c),
            MvArg::D => Ok(self.d),
            MvArg::E => Ok(self.e),
            MvArg::F => Ok(self.f),
            MvArg::PtrC => {
                let idx = self.ptr as u64 + self.c as u64;
                if idx < self.memory.len() as u64 {
                    Ok(self.memory[idx as usize])
                } else {
                    Err(VmError::MemoryFault)
                }
            },
        }
    }

    /// Stores `v` into an 8-bit operand; `PtrC` writes memory at `ptr + c`.
    fn set_reg8(&mut self, arg: MvArg, v: u8) -> (r: Result<(), VmError>)
        ensures
            match write8(old(self)@, arg, v) {
                Ok(n) => r is Ok && final(self)@ == n,
                Err(e) => r == Err::<(), VmError>(e),
            },
    {
        match arg {
            MvArg::A => self.a = v,
            MvArg::B => self.b = v,
            MvArg::C => self.c = v,
            MvArg::D => self.d = v,
            MvArg::E => self.e = v,
            MvArg::F => self.f = v,
            MvArg::PtrC => {
                let idx = self.ptr as u64 + self.c as u64;
                if idx < self.memory.len() as u64 {
                    self.memory.set(idx as usize, v);
                } else {
                    return Err(VmError::MemoryFault);
                }
            },
        }
        Ok(())
    }

    /// The value of a 32-bit register.
    fn get_reg32_value(&self, arg: Mv32Arg) -> (r: u32)
        ensures
            r == read32(self@, arg),
    {
        match arg {
            Mv32Arg::La => self.la,
            Mv32Arg::Lb => self.lb,
            Mv32Arg::Lc => self.lc,
            Mv32Arg::Ld => self.ld,
            Mv32Arg::Ptr => self.ptr,
            Mv32Arg::Pc => self.pc,
        }
    }

    /// Stores `v` into a 32-bit register.
    fn set_reg32(&mut self, arg: Mv32Arg, v: u32)
        ensures
            final(self)@ == write32(old(self)@, arg, v),
    {
        match arg {
            Mv32Arg::La => self.la = v,
            Mv32Arg::Lb => self.lb = v,
            Mv32Arg::Lc => self.lc = v,
            Mv32Arg::Ld => self.ld = v,
            Mv32Arg::Ptr => self.ptr = v,
            Mv32Arg::Pc => self.pc = v,
        }
    }

    /// Executes `instr`; `pc` already points past it.
    pub fn exec(&mut self, instr: Instr) -> (r: Result<Status, VmError>)
        ensures
            match execute(old(self)@, instr) {
                Ok((n, halted)) => r is Ok && final(self)@ == n && (r->Ok_0 is Stop) == halted,
                Err(e) => r == Err::<Status, VmError>(e),
            },
    {
        match instr {
            Instr::Add => self.a = self.a.wrapping_add(self.b),
            Instr::Aptr(imm8) => {
                if self.ptr > u32::MAX - imm8 as u32 {
                    return Err(VmError::MemoryFault);
                }
                self.ptr = self.ptr + imm8 as u32;
            },
            Instr::Cmp => self.f = if self.a == self.b {
                0
            } else {
                1
            },
            Instr::Halt => return Ok(Status::Stop),
            Instr::Jez(imm32) => {
                if self.f == 0 {
                    self.pc = imm32;
                }
            },
            Instr::Jnz(imm32) => {
                if self.f != 0 {
                    self.pc = imm32;
                }
            },
            Instr::Mv(dest, src) => {
                let v = self.get_reg8_value(src)?;
                self.set_reg8(dest, v)?;
            },
            Instr::Mv32(dest, src) => {
                let v = self.get_reg32_value(src);
                self.set_reg32(dest, v);
            },
            Instr::Mvi(dest, imm8) => self.set_reg8(dest, imm8)?,
            Instr::Mvi32(dest, imm32) => self.set_reg32(dest, imm32),
            Instr::Out => self.output.push(self.a),
            Instr::Sub => self.a = self.a.wrapping_sub(self.b),
            Instr::Xor => self.a = self.a ^ self.b,
        }
        Ok(Status::Continue)
    }

    /// One fetch-execute cycle.
    pub fn step(&mut self) -> (r: Result<Status, VmError>)
        ensures
            match step(old(self)@) {
                Ok((n, halted)) => r is Ok && final(self)@ == n && (r->Ok_0 is Stop) == halted,
                Err(e) => r == Err::<Status, VmError>(e),
            },
    {
        let (instr, size) = self.fetch_instr()?;
        if self.pc > u32::MAX - size as u32 {
            return Err(VmError::MemoryFault);
        }
        self.pc = self.pc + size as u32;
        self.exec(instr)
    }

    /// Runs until `Halt`, for at most `max_steps` cycles.
    pub fn run_bounded(&mut self, max_steps: u64) -> (r: Result<(), VmError>)
        ensures
            match run_for(old(self)@, max_steps as nat) {
                Ok(n) => r is Ok && final(self)@ == n,
                Err(e) => r == Err::<(), VmError>(e),
            },
    {
        let mut fuel: u64 = max_steps;
        while fuel > 0
            invariant
                run_for(self@, fuel as nat) == run_for(old(self)@, max_steps as nat),
            decreases fuel,
        {
            match self.step()? {
                Status::Stop => return Ok(()),
                Status::Continue => {},
            }
            fuel = fuel - 1;
        }
        Err(VmError::StepLimit)
    }

    /// Runs until `Halt`. A program that never halts is cut off after
    /// `u64::MAX` cycles.
    pub fn run(&mut self) -> (r: Result<(), VmError>)
        ensures
            match run_for(old(self)@, u64::MAX as nat) {
                Ok(n) => r is Ok && final(self)@ == n,
                Err(e) => r == Err::<(), VmError>(e),
            },
    {
        self.run_bounded(u64::MAX)
    }
}

/// Runs `program` as the memory image of a fresh machine and returns the
/// bytes that its `Out` instructions sent.
pub fn run_payload_program(program: &[u8]) -> (r: Result<Vec<u8>, VmError>)
    ensures
        match run_for(initial_state(program@), u64::MAX as nat) {
            Ok(n) => r is Ok && r->Ok_0@ == n.output,
            Err(e) => r == Err::<Vec<u8>, VmError>(e),
        },
{
    let mut vm = TomtelVm::new(Vec::new(), program);
    proof {
        assert(vm@ == initial_state(program@));
    }
    match vm.run() {
        Ok(()) => Ok(vm.output()),
        Err(e) => Err(e),
    }
}

} // verus!
