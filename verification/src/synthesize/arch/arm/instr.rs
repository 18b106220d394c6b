//! Bit-exact encoders for the AArch64 instructions the compiler emits.
//!
//! Every encoder produces one 32-bit word with the exact field layout the
//! ISA mandates; the contract of each is the word itself, as a formula
//! over the operand fields. Immediate fields are masked to their width, so
//! the emitter must keep operands in range for the word to mean what it
//! says; the emitter's own contracts do that.

use vstd::prelude::*;

use crate::synthesize::arch::arm::reg::Register;

verus! {

/// An instruction that encodes to one 32-bit word.
pub trait Instruction {
    /// The operands fit their encoding fields.
    spec fn wf(&self) -> bool;

    /// The exact 32-bit word this instruction encodes to.
    spec fn encoding(&self) -> u32;

    fn encode(&self) -> (r: u32)
        requires
            self.wf(),
        ensures
            r == self.encoding(),
    ;
}

/// A raw, pre-encoded word.
impl Instruction for u32 {
    open spec fn wf(&self) -> bool {
        true
    }

    open spec fn encoding(&self) -> u32 {
        *self
    }

    fn encode(&self) -> u32 {
        *self
    }
}

/// The left shift applied to a 16-bit move immediate: 0, 16, 32 or 48
/// bits, encoded as 0 through 3.
#[derive(Debug, Clone, Copy, PartialEq, Eq, Structural)]
pub enum ImmShift {
    L0,
    L16,
    L32,
    L48,
}

impl ImmShift {
    pub open spec fn hw_spec(self) -> u32 {
        match self {
            ImmShift::L0 => 0,
            ImmShift::L16 => 1,
            ImmShift::L32 => 2,
            ImmShift::L48 => 3,
        }
    }

    pub fn hw(self) -> (r: u32)
        ensures
            r == self.hw_spec(),
    {
        match self {
            ImmShift::L0 => 0,
            ImmShift::L16 => 1,
            ImmShift::L32 => 2,
            ImmShift::L48 => 3,
        }
    }
}

/// A second operand: a register or an immediate.
#[derive(Debug, Clone, Copy)]
pub enum Input<I> {
    Reg(Register),
    Imm(I),
}

/// The word for `ADD dest, src, #imm` (immediate form, no shift).
pub open spec fn add_imm_word(src: Register, imm: u16, dest: Register) -> u32 {
    0x91000000u32 | (((imm as u32) & 0xfff) << 10) | (src.index_spec() << 5) | dest.index_spec()
}

/// `ADD` with a 12-bit unsigned immediate.
pub fn add_imm(src_reg: Register, imm: u16, dest_reg: Register) -> (r: u32)
    ensures
        r == add_imm_word(src_reg, imm, dest_reg),
{
    0x91000000u32 | (((imm as u32) & 0xfff) << 10) | (src_reg.index() << 5) | dest_reg.index()
}

/// The word for `ADD dest, a, b` (register form).
pub open spec fn add_reg_word(a: Register, b: Register, dest: Register) -> u32 {
    0x8b000000u32 | (a.index_spec() << 16) | (b.index_spec() << 5) | dest.index_spec()
}

/// `ADD` of two registers.
pub fn add_reg(reg_a: Register, reg_b: Register, dest_reg: Register) -> (r: u32)
    ensures
        r == add_reg_word(reg_a, reg_b, dest_reg),
{
    0x8b000000u32 | (reg_a.index() << 16) | (reg_b.index() << 5) | dest_reg.index()
}

/// The word for `SUB dest, src, #imm` (immediate form, no shift).
pub open spec fn sub_imm_word(src: Register, imm: u16, dest: Register) -> u32 {
    0xd1000000u32 | (((imm as u32) & 0xfff) << 10) | (src.index_spec() << 5) | dest.index_spec()
}

/// The word for `SUB dest, a, b` (register form).
pub open spec fn sub_reg_word(a: Register, b: Register, dest: Register) -> u32 {
    0xcb000000u32 | (a.index_spec() << 16) | (b.index_spec() << 5) | dest.index_spec()
}

/// `ADD`: register form, or the 12-bit unsigned immediate form.
#[derive(Debug, Clone, Copy)]
pub struct Add {
    pub a: Register,
    pub b: Input<u16>,
    pub dest: Register,
}

impl Instruction for Add {
    open spec fn wf(&self) -> bool {
        match self.b {
            Input::Reg(_) => true,
            Input::Imm(imm) => imm < 4096,
        }
    }

    open spec fn encoding(&self) -> u32 {
        match self.b {
            Input::Reg(reg) => add_reg_word(self.a, reg, self.dest),
            Input::Imm(imm) => add_imm_word(self.a, imm, self.dest),
        }
    }

    fn encode(&self) -> u32 {
        match self.b {
            Input::Reg(reg) => add_reg(self.a, reg, self.dest),
            Input::Imm(imm) => add_imm(self.a, imm, self.dest),
        }
    }
}

/// `SUB`: register form, or the 12-bit unsigned immediate form.
#[derive(Debug, Clone, Copy)]
pub struct Sub {
    pub a: Register,
    pub b: Input<u16>,
    pub dest: Register,
}

impl Instruction for Sub {
    open spec fn wf(&self) -> bool {
        match self.b {
            Input::Reg(_) => true,
            Input::Imm(imm) => imm < 4096,
        }
    }

    open spec fn encoding(&self) -> u32 {
        match self.b {
            Input::Reg(reg) => sub_reg_word(self.a, reg, self.dest),
            Input::Imm(imm) => sub_imm_word(self.a, imm, self.dest),
        }
    }

    fn encode(&self) -> u32 {
        match self.b {
            Input::Reg(reg) => 0xcb000000u32 | (self.a.index() << 16) | (reg.index() << 5)
                | self.dest.index(),
            Input::Imm(imm) => 0xd1000000u32 | (((imm as u32) & 0xfff) << 10) | (self.a.index()
                << 5) | self.dest.index(),
        }
    }
}

/// `MUL dest, a, b` (an alias of `MADD` with the zero register added).
#[derive(Debug, Clone, Copy)]
pub struct Mul {
    pub a: Register,
    pub b: Register,
    pub dest: Register,
}

impl Instruction for Mul {
    open spec fn wf(&self) -> bool {
        true
    }

    open spec fn encoding(&self) -> u32 {
        0x9b007c00u32 | (self.b.index_spec() << 16) | (self.a.index_spec() << 5)
            | self.dest.index_spec()
    }

    fn encode(&self) -> u32 {
        0x9b007c00u32 | (self.b.index() << 16) | (self.a.index() << 5) | self.dest.index()
    }
}

/// `SDIV` or `UDIV`: `dest = a / b`.
#[derive(Debug, Clone, Copy)]
pub struct Div {
    pub a: Register,
    pub b: Register,
    pub dest: Register,
    pub signed: bool,
}

impl Instruction for Div {
    open spec fn wf(&self) -> bool {
        true
    }

    open spec fn encoding(&self) -> u32 {
        (if self.signed {
            0x9ac00c00u32
        } else {
            0x9ac00800u32
        }) | (self.b.index_spec() << 16) | (self.a.index_spec() << 5) | self.dest.index_spec()
    }

    fn encode(&self) -> u32 {
        (if self.signed {
            0x9ac00c00u32
        } else {
            0x9ac00800u32
        }) | (self.b.index() << 16) | (self.a.index() << 5) | self.dest.index()
    }
}

/// Branch with link instruction.
///
/// Stores the return address in `LR` and jumps. The target is a signed
/// 26-bit offset counted in instructions, relative to this instruction.
#[derive(Debug, Clone, Copy)]
pub struct BranchLink {
    pub addr: i32,
}

impl Instruction for BranchLink {
    open spec fn wf(&self) -> bool {
        -0x2000000 <= self.addr < 0x2000000
    }

    open spec fn encoding(&self) -> u32 {
        0x94000000u32 | ((self.addr & 0x03ffffff) as u32)
    }

    fn encode(&self) -> u32 {
        0x94000000u32 | ((self.addr & 0x03ffffff) as u32)
    }
}

/// `LDR dest, [sp, #offset]` (immediate unsigned offset form, 64-bit).
///
/// The byte offset is encoded divided by 8: only 8-byte-aligned offsets
/// are expressible.
#[derive(Debug, Clone, Copy)]
pub struct Load {
    pub stack_offset: u16,
    pub dest: Register,
}

impl Instruction for Load {
    open spec fn wf(&self) -> bool {
        self.stack_offset < 4096 && self.stack_offset % 8 == 0
    }

    open spec fn encoding(&self) -> u32 {
        0xf9400000u32 | ((((self.stack_offset / 8) as u32) & 0xfff) << 10) | (31u32 << 5)
            | self.dest.index_spec()
    }

    fn encode(&self) -> u32 {
        0xf9400000u32 | ((((self.stack_offset / 8) as u32) & 0xfff) << 10) | (31u32 << 5)
            | self.dest.index()
    }
}

/// `STR value, [base, …]`: register offset, or an 8-byte-scaled unsigned
/// immediate byte offset.
#[derive(Debug, Clone, Copy)]
pub struct Store {
    pub base: Register,
    pub offset: Input<u16>,
    pub value: Register,
}

impl Instruction for Store {
    open spec fn wf(&self) -> bool {
        match self.offset {
            Input::Reg(_) => true,
            Input::Imm(imm) => imm < 4096 && imm % 8 == 0,
        }
    }

    open spec fn encoding(&self) -> u32 {
        match self.offset {
            Input::Reg(reg) => 0xf820e800u32 | (reg.index_spec() << 16) | (self.base.index_spec()
                << 5) | self.value.index_spec(),
            Input::Imm(imm) => 0xf9000000u32 | ((((imm / 8) as u32) & 0xfff) << 10) | (
            self.base.index_spec() << 5) | self.value.index_spec(),
        }
    }

    fn encode(&self) -> u32 {
        match self.offset {
            Input::Reg(reg) => 0xf820e800u32 | (reg.index() << 16) | (self.base.index() << 5)
                | self.value.index(),
            Input::Imm(imm) => 0xf9000000u32 | ((((imm / 8) as u32) & 0xfff) << 10)
                | (self.base.index() << 5) | self.value.index(),
        }
    }
}

/// `STP first, second, [base, #offset]!` (pre-indexed, 64-bit): the frame
/// push. The offset is counted in 8-byte units.
#[derive(Debug, Clone, Copy)]
pub struct StorePair {
    pub base: Register,
    pub first: Register,
    pub second: Register,
    pub offset: i8,
}

impl Instruction for StorePair {
    open spec fn wf(&self) -> bool {
        -64 <= self.offset < 64
    }

    open spec fn encoding(&self) -> u32 {
        0xa9800000u32 | ((((self.offset & 0x7f) as u32) & 0x7f) << 15) | (self.second.index_spec()
            << 10) | (self.base.index_spec() << 5) | self.first.index_spec()
    }

    fn encode(&self) -> u32 {
        0xa9800000u32 | ((((self.offset & 0x7f) as u32) & 0x7f) << 15) | (self.second.index()
            << 10) | (self.base.index() << 5) | self.first.index()
    }
}

/// `LDP first, second, [base], #offset` (post-indexed, 64-bit): the frame
/// pop. The offset is counted in 8-byte units.
#[derive(Debug, Clone, Copy)]
pub struct LoadPair {
    pub base: Register,
    pub first: Register,
    pub second: Register,
    pub offset: i8,
}

impl Instruction for LoadPair {
    open spec fn wf(&self) -> bool {
        -64 <= self.offset < 64
    }

    open spec fn encoding(&self) -> u32 {
        0xa8c00000u32 | ((((self.offset & 0x7f) as u32) & 0x7f) << 15) | (self.second.index_spec()
            << 10) | (self.base.index_spec() << 5) | self.first.index_spec()
    }

    fn encode(&self) -> u32 {
        0xa8c00000u32 | ((((self.offset & 0x7f) as u32) & 0x7f) << 15) | (self.second.index()
            << 10) | (self.base.index() << 5) | self.first.index()
    }
}

/// `MOV dest, src` (an alias of `ORR` with the zero register).
#[derive(Debug, Clone, Copy)]
pub struct MovReg {
    pub src: Register,
    pub dest: Register,
}

impl Instruction for MovReg {
    open spec fn wf(&self) -> bool {
        true
    }

    open spec fn encoding(&self) -> u32 {
        0xaa0003e0u32 | (self.src.index_spec() << 16) | self.dest.index_spec()
    }

    fn encode(&self) -> u32 {
        0xaa0003e0u32 | (self.src.index() << 16) | self.dest.index()
    }
}

/// `MOVZ dest, #imm16, LSL #shift`: moves a 16-bit immediate, zeroing the
/// other bits.
#[derive(Debug, Clone, Copy)]
pub struct Movz {
    pub shift: ImmShift,
    pub imm_value: u16,
    pub dest_reg: Register,
}

impl Instruction for Movz {
    open spec fn wf(&self) -> bool {
        true
    }

    open spec fn encoding(&self) -> u32 {
        0xd2800000u32 | (self.shift.hw_spec() << 21) | ((self.imm_value as u32) << 5)
            | self.dest_reg.index_spec()
    }

    fn encode(&self) -> u32 {
        0xd2800000u32 | (self.shift.hw() << 21) | ((self.imm_value as u32) << 5)
            | self.dest_reg.index()
    }
}

/// `RET`: return through the link register.
#[derive(Debug, Clone, Copy)]
pub struct Ret;

impl Instruction for Ret {
    open spec fn wf(&self) -> bool {
        true
    }

    open spec fn encoding(&self) -> u32 {
        0xd65f03c0u32
    }

    fn encode(&self) -> u32 {
        0xd65f03c0u32
    }
}

/// `SVC #imm`: supervisor call.
#[derive(Debug, Clone, Copy)]
pub struct Svc {
    pub imm: u16,
}

impl Instruction for Svc {
    open spec fn wf(&self) -> bool {
        true
    }

    open spec fn encoding(&self) -> u32 {
        0xd4000001u32 | ((self.imm as u32) << 5)
    }

    fn encode(&self) -> u32 {
        0xd4000001u32 | ((self.imm as u32) << 5)
    }
}

/// The syscall trap: `SVC #0x80` by Darwin convention; the call number
/// goes in `X16`.
#[derive(Debug, Clone, Copy)]
pub struct Syscall;

impl Instruction for Syscall {
    open spec fn wf(&self) -> bool {
        true
    }

    open spec fn encoding(&self) -> u32 {
        0xd4001001u32
    }

    fn encode(&self) -> u32 {
        let w = Svc { imm: 0x80 }.encode();
        proof {
            assert(w == 0xd4001001u32) by (bit_vector)
                requires
                    w == 0xd4000001u32 | ((0x80u16 as u32) << 5),
            ;
        }
        w
    }
}

/// `NOP`.
#[derive(Debug, Clone, Copy)]
pub struct Nop;

impl Instruction for Nop {
    open spec fn wf(&self) -> bool {
        true
    }

    open spec fn encoding(&self) -> u32 {
        0xd503201fu32
    }

    fn encode(&self) -> u32 {
        0xd503201fu32
    }
}

} // verus!
