//! The AArch64 function assembler: walks the linear IR, materializes the
//! allocator's guards, lays down prologue and epilogue, and links the
//! whole program with an entry stub and call fixups.

use vstd::prelude::*;

use crate::ir::{BasicBlock, Operation, SourceVal, VirtualReg, IR, Item};
use crate::synthesize::arch::{Assemble, MachineCode};
use crate::synthesize::arch::arm::instr::{
    add_imm_word, add_reg_word, sub_imm_word, sub_reg_word, Add, BranchLink, Div, Input,
    Instruction, Load, LoadPair, MovReg, Movz, Mul, Nop, Ret, Store, StorePair, Sub, Syscall,
    ImmShift,
};
use crate::synthesize::arch::arm::reg::{
    allocate, allocate_post, guards_slots_ok, saves_slots_ok, Allocator, Reg, Register,
    RegisterGuard,
};
use crate::synthesize::exe::mac::mach_o::le4;

pub mod instr;
pub mod reg;

verus! {

/// The most bytes one operation can ever emit: up to three guard preludes
/// of two words each, two words of primary code, the epilogue, and for a
/// call one store per saved register.
pub const MAX_OP_BYTES: usize = 1052;

/// The most bytes one function can ever emit.
pub const MAX_FN_BYTES: usize = 89432;

/// The most functions a program may hold; with the per-function bound it
/// keeps every call offset within the signed 26-bit branch range.
pub const MAX_FUNCTIONS: usize = 256;

/// The most operations a basic block may hold: a machine limit that keeps
/// every stack slot encodable in a load or store immediate.
pub const MAX_BLOCK_OPS: usize = 85;

/// Every logged frame adjustment fits the ADD/SUB immediate field.
pub open spec fn log_ok(log: Seq<u16>) -> bool {
    forall|t: int| 0 <= t < log.len() ==> (#[trigger] log[t]) < 4096
}

/// The prologue's stack adjustment in bytes: the slot count padded to a
/// multiple of two (16-byte alignment), times eight; zero for no slots.
pub open spec fn frame_adjust(stack_size: u16) -> u16 {
    if stack_size == 0 {
        0
    } else if stack_size % 2 == 0 {
        (8 * stack_size) as u16
    } else {
        (8 * (stack_size + 1)) as u16
    }
}

/// The prologue's bytes: save FP and LR, establish the frame, and reserve
/// the spill area when one is needed.
pub open spec fn prologue_bytes(stack_size: u16) -> Seq<u8> {
    le4(
        (StorePair { base: Register::SP, first: Register::FP, second: Register::LR, offset: -2i8
        }).encoding(),
    ) + le4((MovReg { src: Register::SP, dest: Register::FP }).encoding()) + if stack_size == 0 {
        Seq::<u8>::empty()
    } else {
        le4(
            (Sub { a: Register::SP, b: Input::Imm(frame_adjust(stack_size)), dest: Register::SP
            }).encoding(),
        )
    }
}

/// The epilogue's bytes, given the stack-size log: undo the logged
/// adjustment if one is pending and non-zero, then restore FP and LR.
pub open spec fn epilogue_bytes(log: Seq<u16>) -> Seq<u8> {
    (if log.len() == 0 || log.last() == 0 {
        Seq::<u8>::empty()
    } else {
        le4((Add { a: Register::SP, b: Input::Imm(log.last()), dest: Register::SP }).encoding())
    }) + le4(
        (LoadPair { base: Register::SP, first: Register::FP, second: Register::LR, offset: 2i8
        }).encoding(),
    )
}

/// The stack-size log after an epilogue consumed its entry.
pub open spec fn log_after_return(log: Seq<u16>) -> Seq<u16> {
    if log.len() == 0 {
        log
    } else {
        log.drop_last()
    }
}

/// The bytes of `MOVZ dest, #n`.
pub open spec fn movz_bytes(n: i64, dest: Register) -> Seq<u8> {
    le4((Movz { shift: ImmShift::L0, imm_value: n as u16, dest_reg: dest }).encoding())
}

/// The bytes the guard's stack traffic emits before its register is used.
pub open spec fn guard_prelude(g: RegisterGuard) -> Seq<u8> {
    match g {
        RegisterGuard::Ready(_) => Seq::<u8>::empty(),
        RegisterGuard::Load(slot, dest) => le4(
            (Load { stack_offset: (8 * slot) as u16, dest }).encoding(),
        ),
        RegisterGuard::Save(slot, dest) => le4(
            (Store {
                base: Register::SP,
                offset: Input::Imm((8 * slot) as u16),
                value: dest,
            }).encoding(),
        ),
        RegisterGuard::SaveAndLoad(save_to, load_from, dest) => le4(
            (Store {
                base: Register::SP,
                offset: Input::Imm((8 * save_to) as u16),
                value: dest,
            }).encoding(),
        ) + le4((Load { stack_offset: (8 * load_from) as u16, dest }).encoding()),
    }
}

impl RegisterGuard {
    /// Unwraps the inner register by materializing the guard: emits the
    /// load and/or store it describes, so the value ends up in the
    /// returned register and any displaced value is saved first.
    pub fn unwrap(&self, emitter: &mut ArmAssembler) -> (r: Register)
        requires
            crate::synthesize::arch::arm::reg::guard_slots_lt(*self, 512),
        ensures
            r == self.inner_reg_spec(),
            final(emitter).bytes() == old(emitter).bytes() + guard_prelude(*self),
            final(emitter).functions_view() == old(emitter).functions_view(),
            final(emitter).fn_calls_view() == old(emitter).fn_calls_view(),
            final(emitter).stacks_view() == old(emitter).stacks_view(),
            final(emitter).entry_spec() == old(emitter).entry_spec(),
    {
        match *self {
            RegisterGuard::Ready(reg) => {
                proof {
                    assert(emitter.bytes() =~= emitter.bytes() + Seq::<u8>::empty());
                }
                reg
            },
            RegisterGuard::Load(slot, dest) => {
                emitter.emit(Load { stack_offset: slot * 8, dest });
                dest
            },
            RegisterGuard::Save(slot, dest) => {
                emitter.emit_store(slot * 8, dest);
                dest
            },
            RegisterGuard::SaveAndLoad(save_to, load_from, dest) => {
                emitter.emit(Store { base: Reg::SP, offset: Input::Imm(save_to * 8), value: dest });
                emitter.emit(Load { stack_offset: load_from * 8, dest });
                proof {
                    assert(emitter.bytes() =~= old(emitter).bytes() + guard_prelude(*self));
                }
                dest
            },
        }
    }
}

/// Assembles AArch64 machine code out of linear IR.
pub struct ArmAssembler {
    code: MachineCode,
    functions: Vec<(String, usize)>,
    fn_calls: Vec<(String, usize)>,
    stacks: Vec<u16>,
}

impl ArmAssembler {
    pub closed spec fn bytes(self) -> Seq<u8> {
        self.code.instructions@
    }

    pub closed spec fn entry_spec(self) -> u64 {
        self.code.entry_point_offset
    }

    pub closed spec fn functions_view(self) -> Seq<(String, usize)> {
        self.functions@
    }

    pub closed spec fn fn_calls_view(self) -> Seq<(String, usize)> {
        self.fn_calls@
    }

    pub closed spec fn stacks_view(self) -> Seq<u16> {
        self.stacks@
    }

    pub fn new() -> (r: ArmAssembler)
        ensures
            r.bytes().len() == 0,
            r.functions_view().len() == 0,
            r.fn_calls_view().len() == 0,
            r.stacks_view().len() == 0,
            r.entry_spec() == 0,
    {
        ArmAssembler {
            code: MachineCode::new(),
            functions: Vec::new(),
            fn_calls: Vec::new(),
            stacks: Vec::new(),
        }
    }

    /// Appends one instruction's four little-endian bytes.
    fn emit<I: Instruction>(&mut self, instruction: I)
        requires
            instruction.wf(),
        ensures
            final(self).bytes() == old(self).bytes() + le4(instruction.encoding()),
            final(self).functions@ == old(self).functions@,
            final(self).fn_calls@ == old(self).fn_calls@,
            final(self).stacks@ == old(self).stacks@,
            final(self).entry_spec() == old(self).entry_spec(),
    {
        let w = instruction.encode();
        let b0: u8 = (w & 0xff) as u8;
        let b1: u8 = ((w >> 8) & 0xff) as u8;
        let b2: u8 = ((w >> 16) & 0xff) as u8;
        let b3: u8 = ((w >> 24) & 0xff) as u8;
        self.code.instructions.push(b0);
        self.code.instructions.push(b1);
        self.code.instructions.push(b2);
        self.code.instructions.push(b3);
        proof {
            assert(self.bytes() =~= old(self).bytes() + le4(instruction.encoding()));
        }
    }

    /// Overwrites the four bytes at `offset` with one instruction.
    fn emit_at<I: Instruction>(&mut self, offset: usize, instruction: I)
        requires
            offset + 4 <= old(self).bytes().len(),
            instruction.wf(),
        ensures
            final(self).bytes().len() == old(self).bytes().len(),
            final(self).bytes() == old(self).bytes().subrange(0, offset as int) + le4(
                instruction.encoding(),
            ) + old(self).bytes().skip(offset + 4),
            final(self).functions@ == old(self).functions@,
            final(self).fn_calls@ == old(self).fn_calls@,
            final(self).stacks@ == old(self).stacks@,
            final(self).entry_spec() == old(self).entry_spec(),
    {
        let w = instruction.encode();
        let n = self.code.instructions.len();
        proof {
            assert(offset + 4 <= n);
        }
        self.code.instructions[offset] = (w & 0xff) as u8;
        self.code.instructions[offset + 1] = ((w >> 8) & 0xff) as u8;
        self.code.instructions[offset + 2] = ((w >> 16) & 0xff) as u8;
        self.code.instructions[offset + 3] = ((w >> 24) & 0xff) as u8;
        proof {
            assert(self.bytes() =~= old(self).bytes().subrange(0, offset as int) + le4(
                instruction.encoding(),
            ) + old(self).bytes().skip(offset + 4));
        }
    }

    fn current_offset(&self) -> (r: usize)
        ensures
            r == self.bytes().len(),
    {
        self.code.instructions.len()
    }

    /// Emits `STR register, [sp, #offset]`.
    fn emit_store(&mut self, offset: u16, register: Register)
        requires
            offset < 4096,
            offset % 8 == 0,
        ensures
            final(self).bytes() == old(self).bytes() + le4(
                (Store { base: Register::SP, offset: Input::Imm(offset), value: register
                }).encoding(),
            ),
            final(self).functions@ == old(self).functions@,
            final(self).fn_calls@ == old(self).fn_calls@,
            final(self).stacks@ == old(self).stacks@,
            final(self).entry_spec() == old(self).entry_spec(),
    {
        self.emit(Store { base: Reg::SP, offset: Input::Imm(offset), value: register });
    }

    /// Emits `MOVZ dest, #n` for a value that fits sixteen bits.
    fn emit_movz(&mut self, n: i64, dest: Register)
        requires
            0 <= n < 65536,
        ensures
            final(self).bytes() == old(self).bytes() + le4(
                (Movz { shift: ImmShift::L0, imm_value: n as u16, dest_reg: dest }).encoding(),
            ),
            final(self).functions@ == old(self).functions@,
            final(self).fn_calls@ == old(self).fn_calls@,
            final(self).stacks@ == old(self).stacks@,
            final(self).entry_spec() == old(self).entry_spec(),
    {
        self.emit(Movz { shift: ImmShift::L0, imm_value: n as u16, dest_reg: dest });
    }

    fn emit_nop(&mut self)
        ensures
            final(self).bytes() == old(self).bytes() + le4((Nop).encoding()),
            final(self).functions@ == old(self).functions@,
            final(self).fn_calls@ == old(self).fn_calls@,
            final(self).stacks@ == old(self).stacks@,
            final(self).entry_spec() == old(self).entry_spec(),
    {
        self.emit(Nop);
    }

    /// The function prologue: saves FP and LR, establishes the frame, and
    /// reserves a 16-byte-aligned spill area of `stack_size` slots. The
    /// (possibly zero) adjustment goes onto the stack-size log so the
    /// epilogue can mirror it.
    fn begin_stack(&mut self, stack_size: u16)
        requires
            stack_size <= 510,
        ensures
            final(self).bytes() == old(self).bytes() + prologue_bytes(stack_size),
            final(self).stacks@ == old(self).stacks@.push(frame_adjust(stack_size)),
            frame_adjust(stack_size) < 4096,
            final(self).bytes().len() <= old(self).bytes().len() + 12,
            final(self).bytes().len() >= old(self).bytes().len() + 8,
            final(self).bytes().len() % 4 == old(self).bytes().len() % 4,
            final(self).functions@ == old(self).functions@,
            final(self).fn_calls@ == old(self).fn_calls@,
            final(self).entry_spec() == old(self).entry_spec(),
    {
        self.emit(
            StorePair { base: Reg::SP, first: Reg::FP, second: Reg::LR, offset: -2i8 },
        );
        self.emit(MovReg { src: Reg::SP, dest: Reg::FP });
        if stack_size != 0 {
            let mut padded: u16 = stack_size;
            // align the spill area to 16 bytes
            if padded % 2 != 0 {
                padded = padded + 1;
            }
            let adjust: u16 = padded * 8;
            self.stacks.push(adjust);
            self.emit(Sub { a: Reg::SP, b: Input::Imm(adjust), dest: Reg::SP });
            proof {
                assert(adjust == frame_adjust(stack_size));
                assert(self.bytes() =~= old(self).bytes() + prologue_bytes(stack_size));
            }
        } else {
            self.stacks.push(0);
            proof {
                assert(self.bytes() =~= old(self).bytes() + prologue_bytes(stack_size));
            }
        }
    }

    /// The function epilogue: undoes the spill-area adjustment logged by
    /// the prologue and restores FP and LR.
    fn end_stack(&mut self)
        requires
            log_ok(old(self).stacks@),
        ensures
            final(self).bytes() == old(self).bytes() + epilogue_bytes(old(self).stacks@),
            final(self).stacks@ == log_after_return(old(self).stacks@),
            final(self).bytes().len() <= old(self).bytes().len() + 8,
            final(self).bytes().len() >= old(self).bytes().len() + 4,
            final(self).bytes().len() % 4 == old(self).bytes().len() % 4,
            final(self).functions@ == old(self).functions@,
            final(self).fn_calls@ == old(self).fn_calls@,
            final(self).entry_spec() == old(self).entry_spec(),
    {
        match self.stacks.pop() {
            Some(adjust) => {
                if adjust != 0 {
                    self.emit(Add { a: Reg::SP, b: Input::Imm(adjust), dest: Reg::SP });
                }
            },
            None => (),
        }
        self.emit(
            LoadPair { base: Reg::SP, first: Reg::FP, second: Reg::LR, offset: 2i8 },
        );
        proof {
            assert(self.bytes() =~= old(self).bytes() + epilogue_bytes(old(self).stacks@));
        }
    }
}

/// The operand ranges the emitter can encode; an operand outside them is
/// a programmer error and is rejected up front.
pub open spec fn op_imm_ok(op: Operation) -> bool {
    match op {
        Operation::Assign { src, dest: _ } => match src {
            SourceVal::Immediate(n) => 0 <= n < 65536,
            SourceVal::VReg(_) => true,
        },
        Operation::Add { a, b, dest: _ } => match (a, b) {
            (SourceVal::Immediate(x), SourceVal::Immediate(y)) => 0 <= x && 0 <= y && x + y
                < 65536,
            (SourceVal::Immediate(n), SourceVal::VReg(_)) => 0 <= n <= 2047,
            (SourceVal::VReg(_), SourceVal::Immediate(n)) => 0 <= n <= 2047,
            _ => true,
        },
        Operation::Subtract { a, b, dest: _ } => match (a, b) {
            (SourceVal::Immediate(x), SourceVal::Immediate(y)) => 0 <= y <= x && x - y < 65536,
            (SourceVal::Immediate(n), SourceVal::VReg(_)) => 0 <= n <= 2047,
            (SourceVal::VReg(_), SourceVal::Immediate(n)) => 0 <= n <= 2047,
            _ => true,
        },
        Operation::Multiply { .. } => true,
        Operation::Divide { a, b, dest: _ } => a is VReg && b is VReg,
        Operation::Return { value } => match value {
            SourceVal::Immediate(n) => 0 <= n < 65536,
            SourceVal::VReg(_) => true,
        },
        Operation::Call { .. } => true,
    }
}

/// The allocation map is usable by the emitter: one guard per live pair,
/// and every slot encodable as an 8-byte-scaled 12-bit offset.
pub open spec fn emit_ok(alloc: Allocator) -> bool {
    &&& crate::synthesize::arch::arm::reg::guards_unique(alloc.guards())
    &&& guards_slots_ok(alloc.guards(), 512)
    &&& saves_slots_ok(alloc.saves(), 512)
    &&& forall|q: int| 0 <= q < alloc.saves().len() ==> (#[trigger] alloc.saves()[q]).1@.len() <= 255
    &&& forall|q1: int, q2: int|
        #![trigger alloc.saves()[q1], alloc.saves()[q2]]
        0 <= q1 < q2 < alloc.saves().len() ==> alloc.saves()[q1].0 != alloc.saves()[q2].0
}

/// The bytes of the caller-save stores for the records in `s`.
pub open spec fn stores_bytes(s: Seq<(Register, u16)>) -> Seq<u8>
    decreases s.len(),
{
    if s.len() == 0 {
        Seq::<u8>::empty()
    } else {
        stores_bytes(s.drop_last()) + le4(
            (Store {
                base: Register::SP,
                offset: Input::Imm((8 * s.last().1) as u16),
                value: s.last().0,
            }).encoding(),
        )
    }
}

/// True when the allocation map carries a caller-save record for
/// instruction `i`.
pub open spec fn has_save(al: Allocator, i: int) -> bool {
    exists|q: int| 0 <= q < al.saves().len() && (#[trigger] al.saves()[q]).0 == i
}

/// The index of instruction `i`'s caller-save record.
pub open spec fn save_q(al: Allocator, i: int) -> int {
    choose|q: int| 0 <= q < al.saves().len() && (#[trigger] al.saves()[q]).0 == i
}

/// The caller-save pairs recorded for instruction `i`; empty when none.
pub open spec fn saves_at(al: Allocator, i: int) -> Seq<(Register, u16)> {
    if has_save(al, i) {
        al.saves()[save_q(al, i)].1@
    } else {
        Seq::<(Register, u16)>::empty()
    }
}

/// With distinct record keys, a record at `q` for instruction `i` is the
/// record `saves_at` denotes.
proof fn lemma_saves_at(al: Allocator, i: int, q: int)
    requires
        forall|q1: int, q2: int|
            #![trigger al.saves()[q1], al.saves()[q2]]
            0 <= q1 < q2 < al.saves().len() ==> al.saves()[q1].0 != al.saves()[q2].0,
        0 <= q < al.saves().len(),
        al.saves()[q].0 == i,
    ensures
        has_save(al, i),
        saves_at(al, i) == al.saves()[q].1@,
{
    assert(has_save(al, i));
    let q2 = save_q(al, i);
    if q2 < q {
        assert(al.saves()[q2].0 != al.saves()[q].0);
    } else if q2 > q {
        assert(al.saves()[q].0 != al.saves()[q2].0);
    }
}

/// The bytes of one `Assign`: the destination guard, then for an immediate
/// a `MOVZ`, and for a register source its guard and a `MOV`.
pub open spec fn assign_bytes(al: Allocator, src: SourceVal, dest: VirtualReg, i: int) -> Seq<
    u8,
> {
    guard_prelude(al.guard_at(dest.0, i)) + match src {
        SourceVal::Immediate(n) => movz_bytes(n, al.guard_at(dest.0, i).inner_reg_spec()),
        SourceVal::VReg(v) => guard_prelude(al.guard_at(v.0, i)) + le4(
            (MovReg {
                src: al.guard_at(v.0, i).inner_reg_spec(),
                dest: al.guard_at(dest.0, i).inner_reg_spec(),
            }).encoding(),
        ),
    }
}

/// The bytes of one `Add`: two immediates fold to a `MOVZ`; one immediate
/// uses the 12-bit form; two registers use the register form.
pub open spec fn add_op_bytes(
    al: Allocator,
    a: SourceVal,
    b: SourceVal,
    dest: VirtualReg,
    i: int,
) -> Seq<u8> {
    let gd = al.guard_at(dest.0, i);
    guard_prelude(gd) + match (a, b) {
        (SourceVal::Immediate(x), SourceVal::Immediate(y)) => movz_bytes(
            (x + y) as i64,
            gd.inner_reg_spec(),
        ),
        (SourceVal::Immediate(n), SourceVal::VReg(v)) => guard_prelude(al.guard_at(v.0, i)) + le4(
            add_imm_word(al.guard_at(v.0, i).inner_reg_spec(), n as u16, gd.inner_reg_spec()),
        ),
        (SourceVal::VReg(v), SourceVal::Immediate(n)) => guard_prelude(al.guard_at(v.0, i)) + le4(
            add_imm_word(al.guard_at(v.0, i).inner_reg_spec(), n as u16, gd.inner_reg_spec()),
        ),
        (SourceVal::VReg(va), SourceVal::VReg(vb)) => guard_prelude(al.guard_at(va.0, i))
            + guard_prelude(al.guard_at(vb.0, i)) + le4(
            add_reg_word(
                al.guard_at(va.0, i).inner_reg_spec(),
                al.guard_at(vb.0, i).inner_reg_spec(),
                gd.inner_reg_spec(),
            ),
        ),
    }
}

/// The bytes of one `Subtract`, mirroring `add_op_bytes`.
pub open spec fn sub_op_bytes(
    al: Allocator,
    a: SourceVal,
    b: SourceVal,
    dest: VirtualReg,
    i: int,
) -> Seq<u8> {
    let gd = al.guard_at(dest.0, i);
    guard_prelude(gd) + match (a, b) {
        (SourceVal::Immediate(x), SourceVal::Immediate(y)) => movz_bytes(
            (x - y) as i64,
            gd.inner_reg_spec(),
        ),
        (SourceVal::Immediate(n), SourceVal::VReg(v)) => guard_prelude(al.guard_at(v.0, i)) + le4(
            sub_imm_word(al.guard_at(v.0, i).inner_reg_spec(), n as u16, gd.inner_reg_spec()),
        ),
        (SourceVal::VReg(v), SourceVal::Immediate(n)) => guard_prelude(al.guard_at(v.0, i)) + le4(
            sub_imm_word(al.guard_at(v.0, i).inner_reg_spec(), n as u16, gd.inner_reg_spec()),
        ),
        (SourceVal::VReg(va), SourceVal::VReg(vb)) => guard_prelude(al.guard_at(va.0, i))
            + guard_prelude(al.guard_at(vb.0, i)) + le4(
            sub_reg_word(
                al.guard_at(va.0, i).inner_reg_spec(),
                al.guard_at(vb.0, i).inner_reg_spec(),
                gd.inner_reg_spec(),
            ),
        ),
    }
}

/// The bytes of one `Multiply`.
pub open spec fn mul_op_bytes(
    al: Allocator,
    a: VirtualReg,
    b: VirtualReg,
    dest: VirtualReg,
    i: int,
) -> Seq<u8> {
    guard_prelude(al.guard_at(dest.0, i)) + guard_prelude(al.guard_at(a.0, i)) + guard_prelude(
        al.guard_at(b.0, i),
    ) + le4(
        (Mul {
            a: al.guard_at(a.0, i).inner_reg_spec(),
            b: al.guard_at(b.0, i).inner_reg_spec(),
            dest: al.guard_at(dest.0, i).inner_reg_spec(),
        }).encoding(),
    )
}

/// The bytes of one `Divide` (always the signed form).
pub open spec fn div_op_bytes(
    al: Allocator,
    a: VirtualReg,
    b: VirtualReg,
    dest: VirtualReg,
    i: int,
) -> Seq<u8> {
    guard_prelude(al.guard_at(dest.0, i)) + guard_prelude(al.guard_at(a.0, i)) + guard_prelude(
        al.guard_at(b.0, i),
    ) + le4(
        (Div {
            a: al.guard_at(a.0, i).inner_reg_spec(),
            b: al.guard_at(b.0, i).inner_reg_spec(),
            dest: al.guard_at(dest.0, i).inner_reg_spec(),
            signed: true,
        }).encoding(),
    )
}

/// The bytes of one `Return`: the value into `X0`, the epilogue for the
/// current stack log, and `RET`.
pub open spec fn return_op_bytes(al: Allocator, value: SourceVal, i: int, log: Seq<u16>) -> Seq<
    u8,
> {
    (match value {
        SourceVal::Immediate(n) => movz_bytes(n, Register::X0),
        SourceVal::VReg(v) => guard_prelude(al.guard_at(v.0, i)) + le4(
            (MovReg { src: al.guard_at(v.0, i).inner_reg_spec(), dest: Register::X0 }).encoding(),
        ),
    }) + epilogue_bytes(log) + le4((Ret).encoding())
}

/// The bytes of one `Call`: the caller-save stores, the `NOP` placeholder
/// for the later `BL`, and the capture of the return value.
pub open spec fn call_op_bytes(al: Allocator, dest: Option<VirtualReg>, i: int) -> Seq<u8> {
    stores_bytes(saves_at(al, i)) + le4((Nop).encoding()) + match dest {
        Some(d) => guard_prelude(al.guard_at(d.0, i)) + le4(
            (MovReg { src: Register::X0, dest: al.guard_at(d.0, i).inner_reg_spec() }).encoding(),
        ),
        None => Seq::<u8>::empty(),
    }
}

/// The bytes one operation emits, given the allocation map and the current
/// stack-size log.
pub open spec fn op_bytes(al: Allocator, op: Operation, i: int, log: Seq<u16>) -> Seq<u8> {
    match op {
        Operation::Assign { src, dest } => assign_bytes(al, src, dest, i),
        Operation::Add { a, b, dest } => add_op_bytes(al, a, b, dest, i),
        Operation::Subtract { a, b, dest } => sub_op_bytes(al, a, b, dest, i),
        Operation::Multiply { a, b, dest } => mul_op_bytes(al, a, b, dest, i),
        Operation::Divide { a, b, dest } => match (a, b) {
            (SourceVal::VReg(va), SourceVal::VReg(vb)) => div_op_bytes(al, va, vb, dest, i),
            _ => Seq::<u8>::empty(),
        },
        Operation::Return { value } => return_op_bytes(al, value, i, log),
        Operation::Call { function: _, dest } => call_op_bytes(al, dest, i),
    }
}

/// The stack-size log after one operation: a `Return` consumes one entry.
pub open spec fn op_log(op: Operation, log: Seq<u16>) -> Seq<u16> {
    match op {
        Operation::Return { value: _ } => log_after_return(log),
        _ => log,
    }
}

/// The fixup entries one operation records: a `Call` records its callee
/// and the byte offset of the placeholder it emitted at position `pos`.
pub open spec fn op_fixup(al: Allocator, op: Operation, i: int, pos: int) -> Seq<
    (String, usize),
> {
    match op {
        Operation::Call { function, dest: _ } => seq![
            (function, (pos + 4 * saves_at(al, i).len()) as usize),
        ],
        _ => Seq::<(String, usize)>::empty(),
    }
}

/// Emits the operations of one basic block, one instruction word stream at
/// a time, resolving every virtual register through the allocation map.
pub struct OpEmitter {
    alloc: Allocator,
}

impl OpEmitter {
    pub closed spec fn alloc_spec(self) -> Allocator {
        self.alloc
    }

    pub fn new(alloc: Allocator) -> (r: OpEmitter)
        ensures
            r.alloc_spec() == alloc,
    {
        OpEmitter { alloc }
    }

    /// Hands the allocation map back once emission is done.
    pub fn into_alloc(self) -> (r: Allocator)
        ensures
            r == self.alloc_spec(),
    {
        self.alloc
    }

    /// Materializes the guard of `vreg` at this instruction and returns the
    /// physical register now holding its value.
    fn map_reg(&self, emitter: &mut ArmAssembler, vreg: VirtualReg, instr_index: usize) -> (r:
        Register)
        requires
            emit_ok(self.alloc_spec()),
            self.alloc_spec().has_guard(vreg.0, instr_index as int),
        ensures
            r == self.alloc_spec().guard_at(vreg.0, instr_index as int).inner_reg_spec(),
            final(emitter).bytes() == old(emitter).bytes() + guard_prelude(
                self.alloc_spec().guard_at(vreg.0, instr_index as int),
            ),
            final(emitter).bytes().len() <= old(emitter).bytes().len() + 8,
            final(emitter).bytes().len() % 4 == old(emitter).bytes().len() % 4,
            final(emitter).functions_view() == old(emitter).functions_view(),
            final(emitter).fn_calls_view() == old(emitter).fn_calls_view(),
            final(emitter).stacks_view() == old(emitter).stacks_view(),
            final(emitter).entry_spec() == old(emitter).entry_spec(),
    {
        let gd = self.alloc.map(vreg, instr_index);
        proof {
            let g = self.alloc_spec().guard_at(vreg.0, instr_index as int);
            let idx = self.alloc_spec().guard_idx(vreg.0, instr_index as int);
            assert(guard_slots_lt(self.alloc_spec().guards()[idx].2, 512));
        }
        gd.unwrap(emitter)
    }
}

/// The slots a guard mentions lie below `bound`; re-export of the register
/// module's bound check for the emitter's contracts.
pub use crate::synthesize::arch::arm::reg::guard_slots_lt;

impl OpEmitter {
    /// Emits one operation's machine code.
    #[verifier::rlimit(100)]
    #[verifier::spinoff_prover]
    pub fn asm_op(&self, emitter: &mut ArmAssembler, op: &Operation, idx: usize)
        requires
            emit_ok(self.alloc_spec()),
            op_imm_ok(*op),
            forall|v: u32|
                #[trigger] op.mentions(v) ==> self.alloc_spec().has_guard(v, idx as int),
            calls_ok(old(emitter).fn_calls_view(), old(emitter).bytes().len() as int),
            log_ok(old(emitter).stacks_view()),
        ensures
            final(emitter).bytes() == old(emitter).bytes() + op_bytes(
                self.alloc_spec(),
                *op,
                idx as int,
                old(emitter).stacks_view(),
            ),
            final(emitter).stacks_view() == op_log(*op, old(emitter).stacks_view()),
            final(emitter).fn_calls_view() == old(emitter).fn_calls_view() + op_fixup(
                self.alloc_spec(),
                *op,
                idx as int,
                old(emitter).bytes().len() as int,
            ),
            final(emitter).bytes().len() >= old(emitter).bytes().len(),
            final(emitter).bytes().len() <= old(emitter).bytes().len() + 1040,
            final(emitter).bytes().len() % 4 == old(emitter).bytes().len() % 4,
            final(emitter).functions_view() == old(emitter).functions_view(),
            final(emitter).entry_spec() == old(emitter).entry_spec(),
            calls_ok(final(emitter).fn_calls_view(), final(emitter).bytes().len() as int),
            log_ok(final(emitter).stacks_view()),
    {
        let ghost al = self.alloc_spec();
        let ghost fix0 = old(emitter).fn_calls_view();
        match op {
            Operation::Assign { src, dest } => {
                self.emit_assign(emitter, *src, *dest, idx);
                proof {
                    assert(emitter.fn_calls_view() =~= fix0 + op_fixup(
                        al,
                        *op,
                        idx as int,
                        old(emitter).bytes().len() as int,
                    ));
                }
            },
            Operation::Add { a, b, dest } => {
                self.emit_add(emitter, *a, *b, *dest, idx);
                proof {
                    assert(emitter.fn_calls_view() =~= fix0 + op_fixup(
                        al,
                        *op,
                        idx as int,
                        old(emitter).bytes().len() as int,
                    ));
                }
            },
            Operation::Subtract { a, b, dest } => {
                self.emit_sub(emitter, *a, *b, *dest, idx);
                proof {
                    assert(emitter.fn_calls_view() =~= fix0 + op_fixup(
                        al,
                        *op,
                        idx as int,
                        old(emitter).bytes().len() as int,
                    ));
                }
            },
            Operation::Multiply { a, b, dest } => {
                self.emit_mul(emitter, *a, *b, *dest, idx);
                proof {
                    assert(emitter.fn_calls_view() =~= fix0 + op_fixup(
                        al,
                        *op,
                        idx as int,
                        old(emitter).bytes().len() as int,
                    ));
                }
            },
            Operation::Divide { a, b, dest } => {
                match (a.reg(), b.reg()) {
                    (Some(ra), Some(rb)) => {
                        proof {
                            assert((Operation::Divide { a: *a, b: *b, dest: *dest }).mentions(
                                ra.0,
                            ));
                            assert((Operation::Divide { a: *a, b: *b, dest: *dest }).mentions(
                                rb.0,
                            ));
                            assert((Operation::Divide { a: *a, b: *b, dest: *dest }).mentions(
                                dest.0,
                            ));
                            assert(op.mentions(ra.0) && op.mentions(rb.0) && op.mentions(dest.0));
                        }
                        self.emit_div(emitter, ra, rb, *dest, idx);
                        proof {
                            assert(emitter.fn_calls_view() =~= fix0 + op_fixup(
                                al,
                                *op,
                                idx as int,
                                old(emitter).bytes().len() as int,
                            ));
                        }
                    },
                    _ => {
                        // ruled out by `op_imm_ok`: divide operands must be
                        // registers
                        proof {
                            assert(false);
                        }
                    },
                }
            },
            Operation::Return { value } => {
                self.emit_return(emitter, *value, idx);
                proof {
                    assert(emitter.fn_calls_view() =~= fix0 + op_fixup(
                        al,
                        *op,
                        idx as int,
                        old(emitter).bytes().len() as int,
                    ));
                }
            },
            Operation::Call { function, dest } => {
                proof {
                    match dest {
                        Some(d) => {
                            assert(op.mentions(d.0));
                        },
                        None => {},
                    }
                }
                let name = function.clone();
                self.emit_call(emitter, name, *dest, idx);
                proof {
                    assert(emitter.fn_calls_view() =~= fix0 + op_fixup(
                        al,
                        *op,
                        idx as int,
                        old(emitter).bytes().len() as int,
                    ));
                }
            },
        }
    }

    #[verifier::rlimit(100)]
    #[verifier::spinoff_prover]
    fn emit_assign(&self, emitter: &mut ArmAssembler, src: SourceVal, dest: VirtualReg, idx: usize)
        requires
            emit_ok(self.alloc_spec()),
            op_imm_ok(Operation::Assign { src, dest }),
            forall|v: u32|
                #[trigger] (Operation::Assign { src, dest }).mentions(v)
                    ==> self.alloc_spec().has_guard(v, idx as int),
        ensures
            final(emitter).bytes().len() >= old(emitter).bytes().len(),
            final(emitter).bytes().len() <= old(emitter).bytes().len() + 20,
            final(emitter).bytes().len() % 4 == old(emitter).bytes().len() % 4,
            final(emitter).functions_view() == old(emitter).functions_view(),
            final(emitter).fn_calls_view() == old(emitter).fn_calls_view(),
            final(emitter).stacks_view() == old(emitter).stacks_view(),
            final(emitter).entry_spec() == old(emitter).entry_spec(),
            final(emitter).bytes() == old(emitter).bytes() + assign_bytes(
                self.alloc_spec(),
                src,
                dest,
                idx as int,
            ),
    {
        proof {
            assert((Operation::Assign { src, dest }).mentions(dest.0));
        }
        let dreg = self.map_reg(emitter, dest, idx);
        match src {
            SourceVal::Immediate(n) => emitter.emit_movz(n, dreg),
            SourceVal::VReg(vreg) => {
                proof {
                    assert((Operation::Assign { src, dest }).mentions(vreg.0));
                }
                let sreg = self.map_reg(emitter, vreg, idx);
                emitter.emit(MovReg { src: sreg, dest: dreg });
            },
        }
    }

    #[verifier::rlimit(100)]
    #[verifier::spinoff_prover]
    fn emit_add(
        &self,
        emitter: &mut ArmAssembler,
        a: SourceVal,
        b: SourceVal,
        dest: VirtualReg,
        idx: usize,
    )
        requires
            emit_ok(self.alloc_spec()),
            op_imm_ok(Operation::Add { a, b, dest }),
            forall|v: u32|
                #[trigger] (Operation::Add { a, b, dest }).mentions(v)
                    ==> self.alloc_spec().has_guard(v, idx as int),
        ensures
            final(emitter).bytes() == old(emitter).bytes() + add_op_bytes(
                self.alloc_spec(),
                a,
                b,
                dest,
                idx as int,
            ),
            final(emitter).bytes().len() >= old(emitter).bytes().len(),
            final(emitter).bytes().len() <= old(emitter).bytes().len() + 28,
            final(emitter).bytes().len() % 4 == old(emitter).bytes().len() % 4,
            final(emitter).functions_view() == old(emitter).functions_view(),
            final(emitter).fn_calls_view() == old(emitter).fn_calls_view(),
            final(emitter).stacks_view() == old(emitter).stacks_view(),
            final(emitter).entry_spec() == old(emitter).entry_spec(),
    {
        proof {
            assert((Operation::Add { a, b, dest }).mentions(dest.0));
        }
        let dreg = self.map_reg(emitter, dest, idx);
        let ghost al = self.alloc_spec();
        let ghost total = add_op_bytes(al, a, b, dest, idx as int);
        match (a, b) {
            (SourceVal::Immediate(x), SourceVal::Immediate(y)) => {
                // both operands constant: fold to one move
                emitter.emit_movz(x + y, dreg);
                proof {
                    assert(emitter.bytes() =~= old(emitter).bytes() + total);
                }
            },
            (SourceVal::Immediate(n), SourceVal::VReg(vreg)) => {
                proof {
                    assert((Operation::Add { a, b, dest }).mentions(vreg.0));
                }
                let areg = self.map_reg(emitter, vreg, idx);
                emitter.emit(Add { a: areg, b: Input::Imm(n as u16), dest: dreg });
                proof {
                    assert(emitter.bytes() =~= old(emitter).bytes() + total);
                }
            },
            (SourceVal::VReg(vreg), SourceVal::Immediate(n)) => {
                proof {
                    assert((Operation::Add { a, b, dest }).mentions(vreg.0));
                }
                let areg = self.map_reg(emitter, vreg, idx);
                emitter.emit(Add { a: areg, b: Input::Imm(n as u16), dest: dreg });
                proof {
                    assert(emitter.bytes() =~= old(emitter).bytes() + total);
                }
            },
            (SourceVal::VReg(va), SourceVal::VReg(vb)) => {
                proof {
                    assert((Operation::Add { a, b, dest }).mentions(va.0));
                    assert((Operation::Add { a, b, dest }).mentions(vb.0));
                }
                let areg = self.map_reg(emitter, va, idx);
                let breg = self.map_reg(emitter, vb, idx);
                emitter.emit(Add { a: areg, b: Input::Reg(breg), dest: dreg });
                proof {
                    assert(emitter.bytes() =~= old(emitter).bytes() + total);
                }
            },
        }
    }

    #[verifier::rlimit(100)]
    #[verifier::spinoff_prover]
    fn emit_sub(
        &self,
        emitter: &mut ArmAssembler,
        a: SourceVal,
        b: SourceVal,
        dest: VirtualReg,
        idx: usize,
    )
        requires
            emit_ok(self.alloc_spec()),
            op_imm_ok(Operation::Subtract { a, b, dest }),
            forall|v: u32|
                #[trigger] (Operation::Subtract { a, b, dest }).mentions(v)
                    ==> self.alloc_spec().has_guard(v, idx as int),
        ensures
            final(emitter).bytes() == old(emitter).bytes() + sub_op_bytes(
                self.alloc_spec(),
                a,
                b,
                dest,
                idx as int,
            ),
            final(emitter).bytes().len() >= old(emitter).bytes().len(),
            final(emitter).bytes().len() <= old(emitter).bytes().len() + 28,
            final(emitter).bytes().len() % 4 == old(emitter).bytes().len() % 4,
            final(emitter).functions_view() == old(emitter).functions_view(),
            final(emitter).fn_calls_view() == old(emitter).fn_calls_view(),
            final(emitter).stacks_view() == old(emitter).stacks_view(),
            final(emitter).entry_spec() == old(emitter).entry_spec(),
    {
        proof {
            assert((Operation::Subtract { a, b, dest }).mentions(dest.0));
        }
        let dreg = self.map_reg(emitter, dest, idx);
        let ghost al = self.alloc_spec();
        let ghost total = sub_op_bytes(al, a, b, dest, idx as int);
        match (a, b) {
            (SourceVal::Immediate(x), SourceVal::Immediate(y)) => {
                emitter.emit_movz(x - y, dreg);
                proof {
                    assert(emitter.bytes() =~= old(emitter).bytes() + total);
                }
            },
            (SourceVal::Immediate(n), SourceVal::VReg(vreg)) => {
                proof {
                    assert((Operation::Subtract { a, b, dest }).mentions(vreg.0));
                }
                let areg = self.map_reg(emitter, vreg, idx);
                emitter.emit(Sub { a: areg, b: Input::Imm(n as u16), dest: dreg });
                proof {
                    assert(emitter.bytes() =~= old(emitter).bytes() + total);
                }
            },
            (SourceVal::VReg(vreg), SourceVal::Immediate(n)) => {
                proof {
                    assert((Operation::Subtract { a, b, dest }).mentions(vreg.0));
                }
                let areg = self.map_reg(emitter, vreg, idx);
                emitter.emit(Sub { a: areg, b: Input::Imm(n as u16), dest: dreg });
                proof {
                    assert(emitter.bytes() =~= old(emitter).bytes() + total);
                }
            },
            (SourceVal::VReg(va), SourceVal::VReg(vb)) => {
                proof {
                    assert((Operation::Subtract { a, b, dest }).mentions(va.0));
                    assert((Operation::Subtract { a, b, dest }).mentions(vb.0));
                }
                let areg = self.map_reg(emitter, va, idx);
                let breg = self.map_reg(emitter, vb, idx);
                emitter.emit(Sub { a: areg, b: Input::Reg(breg), dest: dreg });
                proof {
                    assert(emitter.bytes() =~= old(emitter).bytes() + total);
                }
            },
        }
    }

    #[verifier::rlimit(100)]
    #[verifier::spinoff_prover]
    fn emit_mul(
        &self,
        emitter: &mut ArmAssembler,
        a: VirtualReg,
        b: VirtualReg,
        dest: VirtualReg,
        idx: usize,
    )
        requires
            emit_ok(self.alloc_spec()),
            forall|v: u32|
                #[trigger] (Operation::Multiply { a, b, dest }).mentions(v)
                    ==> self.alloc_spec().has_guard(v, idx as int),
        ensures
            final(emitter).bytes().len() >= old(emitter).bytes().len(),
            final(emitter).bytes().len() <= old(emitter).bytes().len() + 28,
            final(emitter).bytes().len() % 4 == old(emitter).bytes().len() % 4,
            final(emitter).functions_view() == old(emitter).functions_view(),
            final(emitter).fn_calls_view() == old(emitter).fn_calls_view(),
            final(emitter).stacks_view() == old(emitter).stacks_view(),
            final(emitter).entry_spec() == old(emitter).entry_spec(),
            final(emitter).bytes() == old(emitter).bytes() + mul_op_bytes(
                self.alloc_spec(),
                a,
                b,
                dest,
                idx as int,
            ),
    {
        proof {
            assert((Operation::Multiply { a, b, dest }).mentions(dest.0));
            assert((Operation::Multiply { a, b, dest }).mentions(a.0));
            assert((Operation::Multiply { a, b, dest }).mentions(b.0));
        }
        let dreg = self.map_reg(emitter, dest, idx);
        let areg = self.map_reg(emitter, a, idx);
        let breg = self.map_reg(emitter, b, idx);
        emitter.emit(Mul { a: areg, b: breg, dest: dreg });
    }

    #[verifier::rlimit(100)]
    #[verifier::spinoff_prover]
    fn emit_div(
        &self,
        emitter: &mut ArmAssembler,
        a: VirtualReg,
        b: VirtualReg,
        dest: VirtualReg,
        idx: usize,
    )
        requires
            emit_ok(self.alloc_spec()),
            self.alloc_spec().has_guard(a.0, idx as int),
            self.alloc_spec().has_guard(b.0, idx as int),
            self.alloc_spec().has_guard(dest.0, idx as int),
        ensures
            final(emitter).bytes().len() >= old(emitter).bytes().len(),
            final(emitter).bytes().len() <= old(emitter).bytes().len() + 28,
            final(emitter).bytes().len() % 4 == old(emitter).bytes().len() % 4,
            final(emitter).functions_view() == old(emitter).functions_view(),
            final(emitter).fn_calls_view() == old(emitter).fn_calls_view(),
            final(emitter).stacks_view() == old(emitter).stacks_view(),
            final(emitter).entry_spec() == old(emitter).entry_spec(),
            final(emitter).bytes() == old(emitter).bytes() + div_op_bytes(
                self.alloc_spec(),
                a,
                b,
                dest,
                idx as int,
            ),
    {
        let dreg = self.map_reg(emitter, dest, idx);
        let areg = self.map_reg(emitter, a, idx);
        let breg = self.map_reg(emitter, b, idx);
        emitter.emit(Div { a: areg, b: breg, dest: dreg, signed: true });
    }

    /// Emits the return value into `X0`, the epilogue, and `RET`.
    #[verifier::rlimit(100)]
    #[verifier::spinoff_prover]
    fn emit_return(&self, emitter: &mut ArmAssembler, src: SourceVal, idx: usize)
        requires
            emit_ok(self.alloc_spec()),
            op_imm_ok(Operation::Return { value: src }),
            forall|v: u32|
                #[trigger] (Operation::Return { value: src }).mentions(v)
                    ==> self.alloc_spec().has_guard(v, idx as int),
            log_ok(old(emitter).stacks_view()),
        ensures
            final(emitter).bytes() == old(emitter).bytes() + return_op_bytes(
                self.alloc_spec(),
                src,
                idx as int,
                old(emitter).stacks_view(),
            ),
            final(emitter).stacks_view() == log_after_return(old(emitter).stacks_view()),
            final(emitter).bytes().len() >= old(emitter).bytes().len(),
            final(emitter).bytes().len() <= old(emitter).bytes().len() + 24,
            final(emitter).bytes().len() % 4 == old(emitter).bytes().len() % 4,
            final(emitter).functions_view() == old(emitter).functions_view(),
            final(emitter).fn_calls_view() == old(emitter).fn_calls_view(),
            final(emitter).entry_spec() == old(emitter).entry_spec(),
    {
        match src {
            SourceVal::Immediate(n) => emitter.emit_movz(n, Reg::X0),
            SourceVal::VReg(vreg) => {
                proof {
                    assert((Operation::Return { value: src }).mentions(vreg.0));
                }
                let sreg = self.map_reg(emitter, vreg, idx);
                emitter.emit(MovReg { src: sreg, dest: Reg::X0 });
            },
        }
        emitter.end_stack();
        emitter.emit(Ret);
        proof {
            assert(emitter.bytes() =~= old(emitter).bytes() + return_op_bytes(
                self.alloc_spec(),
                src,
                idx as int,
                old(emitter).stacks_view(),
            ));
        }
    }

    /// Emits the caller-save stores for this call, a `NOP` placeholder for
    /// the later `BL` fixup, and the capture of the return value.
    #[verifier::rlimit(100)]
    #[verifier::spinoff_prover]
    pub fn emit_call(
        &self,
        emitter: &mut ArmAssembler,
        function: String,
        dest: Option<VirtualReg>,
        idx: usize,
    )
        requires
            emit_ok(self.alloc_spec()),
            match dest {
                Some(d) => self.alloc_spec().has_guard(d.0, idx as int),
                None => true,
            },
            calls_ok(old(emitter).fn_calls_view(), old(emitter).bytes().len() as int),
        ensures
            final(emitter).bytes() == old(emitter).bytes() + call_op_bytes(
                self.alloc_spec(),
                dest,
                idx as int,
            ),
            final(emitter).fn_calls_view() == old(emitter).fn_calls_view().push(
                (
                    function,
                    (old(emitter).bytes().len() + 4 * saves_at(
                        self.alloc_spec(),
                        idx as int,
                    ).len()) as usize,
                ),
            ),
            final(emitter).bytes().len() >= old(emitter).bytes().len() + 4,
            final(emitter).bytes().len() <= old(emitter).bytes().len() + 1036,
            final(emitter).bytes().len() % 4 == old(emitter).bytes().len() % 4,
            final(emitter).functions_view() == old(emitter).functions_view(),
            final(emitter).stacks_view() == old(emitter).stacks_view(),
            final(emitter).entry_spec() == old(emitter).entry_spec(),
            calls_ok(final(emitter).fn_calls_view(), final(emitter).bytes().len() as int),
    {
        let ghost al = self.alloc_spec();
        let ghost gsaves = saves_at(al, idx as int);
        match self.alloc.stack_save(idx) {
            Some(regs_to_save) => {
                let nsave = regs_to_save.len();
                proof {
                    let q = choose|q: int|
                        0 <= q < al.saves().len() && (#[trigger] al.saves()[q]).0 == idx
                            && al.saves()[q].1 == *regs_to_save;
                    lemma_saves_at(al, idx as int, q);
                    assert(gsaves == regs_to_save@);
                    assert(regs_to_save@.len() <= 255);
                    assert(forall|t: int|
                        0 <= t < regs_to_save@.len() ==> (#[trigger] regs_to_save@[t]).1 < 512);
                }
                let mut t: usize = 0;
                while t < nsave
                    invariant
                        nsave == regs_to_save@.len(),
                        nsave <= 255,
                        0 <= t <= nsave,
                        gsaves == regs_to_save@,
                        forall|tt: int|
                            0 <= tt < regs_to_save@.len() ==> (#[trigger] regs_to_save@[tt]).1
                                < 512,
                        emitter.bytes() == old(emitter).bytes() + stores_bytes(
                            regs_to_save@.take(t as int),
                        ),
                        emitter.bytes().len() == old(emitter).bytes().len() + 4 * t,
                        emitter.bytes().len() % 4 == old(emitter).bytes().len() % 4,
                        emitter.functions_view() == old(emitter).functions_view(),
                        emitter.fn_calls_view() == old(emitter).fn_calls_view(),
                        emitter.stacks_view() == old(emitter).stacks_view(),
                        emitter.entry_spec() == old(emitter).entry_spec(),
                    decreases nsave - t,
                {
                    let pair = regs_to_save[t];
                    emitter.emit_store(pair.1 * 8, pair.0);
                    proof {
                        let upto = regs_to_save@.take(t + 1);
                        assert(upto.drop_last() =~= regs_to_save@.take(t as int));
                        assert(upto.last() == regs_to_save@[t as int]);
                        assert(emitter.bytes() =~= old(emitter).bytes() + stores_bytes(upto));
                    }
                    t += 1;
                }
                proof {
                    assert(regs_to_save@.take(nsave as int) =~= regs_to_save@);
                }
            },
            None => {
                proof {
                    assert(!has_save(al, idx as int));
                    assert(gsaves.len() == 0);
                    assert(stores_bytes(gsaves) =~= Seq::<u8>::empty());
                    assert(emitter.bytes() =~= old(emitter).bytes() + stores_bytes(gsaves));
                }
            },
        }
        let offset = emitter.current_offset();
        emitter.emit_nop();
        self_push_call(emitter, function, offset);
        match dest {
            Some(d) => {
                let dreg = self.map_reg(emitter, d, idx);
                emitter.emit(MovReg { src: Reg::X0, dest: dreg });
                proof {
                    assert(emitter.bytes() =~= old(emitter).bytes() + call_op_bytes(
                        al,
                        dest,
                        idx as int,
                    ));
                }
            },
            None => {
                proof {
                    assert(emitter.bytes() =~= old(emitter).bytes() + call_op_bytes(
                        al,
                        dest,
                        idx as int,
                    ));
                }
            },
        }
    }
}

/// Records a pending call fixup: the callee's name and the byte offset of
/// the placeholder to patch.
fn self_push_call(emitter: &mut ArmAssembler, function: String, offset: usize)
    requires
        offset + 4 <= old(emitter).bytes().len(),
    ensures
        final(emitter).bytes() == old(emitter).bytes(),
        final(emitter).functions_view() == old(emitter).functions_view(),
        final(emitter).stacks_view() == old(emitter).stacks_view(),
        final(emitter).entry_spec() == old(emitter).entry_spec(),
        final(emitter).fn_calls_view() == old(emitter).fn_calls_view().push((function, offset)),
{
    emitter.fn_calls.push((function, offset));
}

/// Every recorded call placeholder lies fully inside the first `len` bytes.
pub open spec fn calls_ok(fc: Seq<(String, usize)>, len: int) -> bool {
    forall|q: int| 0 <= q < fc.len() ==> (#[trigger] fc[q]).1 + 4 <= len
}

/// One basic block within the emitter's ranges: short enough for every
/// spill slot to be encodable, and with every immediate in encoding range.
pub open spec fn block_ok(bb: BasicBlock) -> bool {
    &&& bb.ops@.len() <= MAX_BLOCK_OPS
    &&& forall|j: int| 0 <= j < bb.ops@.len() ==> op_imm_ok(#[trigger] bb.ops@[j])
}

/// A whole program within the emitter's ranges.
pub open spec fn ir_ok(ir: IR) -> bool {
    &&& ir.items@.len() <= MAX_FUNCTIONS
    &&& forall|it: int|
        0 <= it < ir.items@.len() ==> match #[trigger] ir.items@[it] {
            Item::Function { name: _, bb } => block_ok(bb),
        }
    &&& forall|it: int, j: int|
        #![trigger call_target(ir.items@, it, j)]
        0 <= it < ir.items@.len() ==> match call_target(ir.items@, it, j) {
            Some(nm) => item_named(ir.items@, nm@),
            None => true,
        }
    &&& item_named(ir.items@, "main"@)
}

/// Some item carries this name.
pub open spec fn item_named(items: Seq<Item>, nm: Seq<char>) -> bool {
    exists|k: int| 0 <= k < items.len() && #[trigger] item_name(items[k]) == nm
}

/// The callee of operation `j` of item `it`, when that operation is a call.
pub open spec fn call_target(items: Seq<Item>, it: int, j: int) -> Option<String> {
    match items[it] {
        Item::Function { name: _, bb } => if 0 <= j < bb.ops@.len() {
            match bb.ops@[j] {
                Operation::Call { function, dest: _ } => Some(function),
                _ => None,
            }
        } else {
            None
        },
    }
}

/// The bytes the operations `ops[j..]` emit, given the allocation map and
/// the stack-size log at operation `j`.
pub open spec fn block_bytes(al: Allocator, ops: Seq<Operation>, j: int, log: Seq<u16>) -> Seq<
    u8,
>
    decreases ops.len() - j,
{
    if j < 0 || j >= ops.len() {
        Seq::<u8>::empty()
    } else {
        op_bytes(al, ops[j], j, log) + block_bytes(al, ops, j + 1, op_log(ops[j], log))
    }
}

/// The stack-size log after the operations `ops[j..]`.
pub open spec fn block_log(ops: Seq<Operation>, j: int, log: Seq<u16>) -> Seq<u16>
    decreases ops.len() - j,
{
    if j < 0 || j >= ops.len() {
        log
    } else {
        block_log(ops, j + 1, op_log(ops[j], log))
    }
}

/// The fixup entries the operations `ops[j..]` record, starting at byte
/// position `pos`.
pub open spec fn block_fixups(
    al: Allocator,
    ops: Seq<Operation>,
    j: int,
    pos: int,
    log: Seq<u16>,
) -> Seq<(String, usize)>
    decreases ops.len() - j,
{
    if j < 0 || j >= ops.len() {
        Seq::<(String, usize)>::empty()
    } else {
        op_fixup(al, ops[j], j, pos) + block_fixups(
            al,
            ops,
            j + 1,
            pos + op_bytes(al, ops[j], j, log).len(),
            op_log(ops[j], log),
        )
    }
}

/// The whole byte stream of one assembled function: prologue, then its
/// operations, with the logged frame adjustment visible to its epilogues.
pub open spec fn item_code(item: Item, al: Allocator, log0: Seq<u16>) -> Seq<u8> {
    match item {
        Item::Function { name: _, bb } => prologue_bytes(al.stack_size_spec()) + block_bytes(
            al,
            bb.ops@,
            0,
            log0.push(frame_adjust(al.stack_size_spec())),
        ),
    }
}

/// The fixup entries one assembled function records, starting at `pos`.
pub open spec fn item_fixups(item: Item, al: Allocator, pos: int, log0: Seq<u16>) -> Seq<
    (String, usize),
> {
    match item {
        Item::Function { name: _, bb } => block_fixups(
            al,
            bb.ops@,
            0,
            pos + prologue_bytes(al.stack_size_spec()).len(),
            log0.push(frame_adjust(al.stack_size_spec())),
        ),
    }
}

/// The stack-size log after one assembled function.
pub open spec fn item_log(item: Item, al: Allocator, log0: Seq<u16>) -> Seq<u16> {
    match item {
        Item::Function { name: _, bb } => block_log(
            bb.ops@,
            0,
            log0.push(frame_adjust(al.stack_size_spec())),
        ),
    }
}

/// The name an item carries.
pub open spec fn item_name(item: Item) -> Seq<char> {
    match item {
        Item::Function { name, bb: _ } => name@,
    }
}

/// The stack-size log after the first `n` functions.
pub open spec fn program_log(items: Seq<Item>, als: Seq<Allocator>, n: int) -> Seq<u16>
    decreases n,
{
    if n <= 0 {
        Seq::<u16>::empty()
    } else {
        item_log(items[n - 1], als[n - 1], program_log(items, als, n - 1))
    }
}

/// The bytes of the first `n` functions, each laid out by its own
/// allocation map.
pub open spec fn program_code(items: Seq<Item>, als: Seq<Allocator>, n: int) -> Seq<u8>
    decreases n,
{
    if n <= 0 {
        Seq::<u8>::empty()
    } else {
        program_code(items, als, n - 1) + item_code(
            items[n - 1],
            als[n - 1],
            program_log(items, als, n - 1),
        )
    }
}

/// The name-to-offset table the assembler records for the first `n`
/// functions: each name at the byte position its code starts at.
pub open spec fn program_offsets(items: Seq<Item>, als: Seq<Allocator>, n: int) -> Seq<
    (String, usize),
>
    decreases n,
{
    if n <= 0 {
        Seq::<(String, usize)>::empty()
    } else {
        program_offsets(items, als, n - 1) + (match items[n - 1] {
            Item::Function { name, bb: _ } => seq![
                (name, program_code(items, als, n - 1).len() as usize),
            ],
        })
    }
}

/// The fixup entries of the first `n` functions.
pub open spec fn program_fixups(items: Seq<Item>, als: Seq<Allocator>, n: int) -> Seq<
    (String, usize),
>
    decreases n,
{
    if n <= 0 {
        Seq::<(String, usize)>::empty()
    } else {
        program_fixups(items, als, n - 1) + item_fixups(
            items[n - 1],
            als[n - 1],
            program_code(items, als, n - 1).len() as int,
            program_log(items, als, n - 1),
        )
    }
}

/// The program-composition functions read only the first `n` allocation
/// maps, so extending the sequence changes nothing.
proof fn lemma_program_frame(items: Seq<Item>, als1: Seq<Allocator>, als2: Seq<Allocator>, n: int)
    requires
        forall|k: int| 0 <= k < n ==> #[trigger] als1[k] == als2[k],
    ensures
        program_log(items, als1, n) == program_log(items, als2, n),
        program_code(items, als1, n) == program_code(items, als2, n),
        program_offsets(items, als1, n) == program_offsets(items, als2, n),
        program_fixups(items, als1, n) == program_fixups(items, als2, n),
    decreases n,
{
    if n > 0 {
        lemma_program_frame(items, als1, als2, n - 1);
    }
}

/// The three words of the entry stub/// The three words of the entry stub: the placeholder for the `BL` to
/// `main`, `MOVZ X16, #1`, and the syscall trap.
pub open spec fn stub_bytes() -> Seq<u8> {
    le4((Nop).encoding()) + le4(
        (Movz { shift: ImmShift::L0, imm_value: 0x1, dest_reg: Register::X16 }).encoding(),
    ) + le4((Syscall).encoding())
}

/// The first recorded offset for a name, scanning from entry `k`.
pub open spec fn offset_of(offs: Seq<(String, usize)>, nm: Seq<char>, k: int) -> Option<usize>
    decreases offs.len() - k,
{
    if k < 0 || k >= offs.len() {
        None
    } else if offs[k].0@ == nm {
        Some(offs[k].1)
    } else {
        offset_of(offs, nm, k + 1)
    }
}

/// The `BL` target field for a call placeholder at `off` branching to
/// `fo`: the instruction distance, negative for a backward branch.
pub open spec fn bl_addr(fo: int, off: int) -> int {
    if fo >= off {
        (fo - off) / 4
    } else {
        0 - ((off - fo) / 4)
    }
}

/// One fixup applied: the four placeholder bytes at the recorded offset
/// replaced with the `BL` word to the callee's recorded start.
pub open spec fn patch_one(
    bytes: Seq<u8>,
    entry: (String, usize),
    offs: Seq<(String, usize)>,
) -> Seq<u8> {
    match offset_of(offs, entry.0@, 0) {
        Some(fo) => if entry.1 + 4 <= bytes.len() && fo < bytes.len() {
            bytes.subrange(0, entry.1 as int) + le4(
                (BranchLink { addr: bl_addr(fo as int, entry.1 as int) as i32 }).encoding(),
            ) + bytes.skip(entry.1 + 4)
        } else {
            bytes
        },
        None => bytes,
    }
}

/// Every fixup from `q` on applied in order.
pub open spec fn apply_fixups(
    bytes: Seq<u8>,
    fixes: Seq<(String, usize)>,
    offs: Seq<(String, usize)>,
    q: int,
) -> Seq<u8>
    decreases fixes.len() - q,
{
    if q < 0 || q >= fixes.len() {
        bytes
    } else {
        apply_fixups(patch_one(bytes, fixes[q], offs), fixes, offs, q + 1)
    }
}

impl ArmAssembler {
    /// Assembles one function: records its offset, allocates registers for
    /// its block, and emits prologue, body and (through `Return`
    /// operations) epilogue.
    #[verifier::rlimit(100)]
    #[verifier::spinoff_prover]
    fn asm_item(&mut self, item: &Item) -> (al: Allocator)
        requires
            match *item {
                Item::Function { name: _, bb } => block_ok(bb),
            },
            calls_ok(old(self).fn_calls_view(), old(self).bytes().len() as int),
            log_ok(old(self).stacks_view()),
        ensures
            match *item {
                Item::Function { name: _, bb } => allocate_post(bb, al),
            },
            emit_ok(al),
            final(self).bytes() == old(self).bytes() + item_code(
                *item,
                al,
                old(self).stacks_view(),
            ),
            final(self).fn_calls_view() == old(self).fn_calls_view() + item_fixups(
                *item,
                al,
                old(self).bytes().len() as int,
                old(self).stacks_view(),
            ),
            final(self).stacks_view() == (match *item {
                Item::Function { name: _, bb } => block_log(
                    bb.ops@,
                    0,
                    old(self).stacks_view().push(frame_adjust(al.stack_size_spec())),
                ),
            }),
            log_ok(final(self).stacks_view()),
            final(self).bytes().len() >= old(self).bytes().len(),
            final(self).bytes().len() <= old(self).bytes().len() + MAX_FN_BYTES,
            final(self).bytes().len() % 4 == old(self).bytes().len() % 4,
            final(self).functions_view() == old(self).functions_view().push(
                (
                    match *item {
                        Item::Function { name, bb: _ } => name,
                    },
                    old(self).bytes().len() as usize,
                ),
            ),
            calls_ok(final(self).fn_calls_view(), final(self).bytes().len() as int),
            final(self).entry_spec() == old(self).entry_spec(),
    {
        let (name, bb) = match item {
            Item::Function { name, bb } => (name, bb),
        };
        let off = self.current_offset();
        self.functions.push((name.clone(), off));
        let alloc = allocate(bb);
        proof {
            assert(emit_ok(alloc)) by {
                assert forall|idx: int|
                    0 <= idx < alloc.guards().len() implies guard_slots_lt(
                    (#[trigger] alloc.guards()[idx]).2,
                    512,
                ) by {
                    assert(guard_slots_lt(alloc.guards()[idx].2, alloc.stack_size_spec() as int));
                }
            }
        }
        let ghost gal = alloc;
        let ghost log0 = self.stacks_view().push(frame_adjust(alloc.stack_size_spec()));
        self.begin_stack(alloc.stack_size());
        let em = OpEmitter::new(alloc);
        let nops = bb.ops.len();
        let ghost base = self.bytes().len();
        let ghost fixbase = self.fn_calls_view();
        let ghost total = block_bytes(gal, bb.ops@, 0, log0);
        let ghost totalfix = block_fixups(gal, bb.ops@, 0, base as int, log0);
        let mut j: usize = 0;
        while j < nops
            invariant
                nops == bb.ops@.len(),
                nops <= MAX_BLOCK_OPS,
                0 <= j <= nops,
                em.alloc_spec() == gal,
                emit_ok(em.alloc_spec()),
                forall|v: u32, i2: int|
                    #[trigger] em.alloc_spec().has_guard(v, i2) <==> (0 <= i2 < bb.ops@.len()
                        && bb.ops@[i2].mentions(v)),
                forall|jj: int| 0 <= jj < nops ==> op_imm_ok(#[trigger] bb.ops@[jj]),
                self.bytes().len() >= base,
                self.bytes().len() <= base + 1040 * j,
                self.bytes().len() % 4 == base % 4,
                self.bytes() + block_bytes(gal, bb.ops@, j as int, self.stacks_view())
                    == self.bytes().subrange(0, base as int) + total,
                self.bytes().subrange(0, base as int) == old(self).bytes() + prologue_bytes(
                    gal.stack_size_spec(),
                ),
                block_log(bb.ops@, j as int, self.stacks_view()) == block_log(bb.ops@, 0, log0),
                self.fn_calls_view() + block_fixups(
                    gal,
                    bb.ops@,
                    j as int,
                    self.bytes().len() as int,
                    self.stacks_view(),
                ) == fixbase + totalfix,
                log_ok(self.stacks_view()),
                self.functions_view() == old(self).functions_view().push(
                    (
                        match *item {
                            Item::Function { name, bb: _ } => name,
                        },
                        old(self).bytes().len() as usize,
                    ),
                ),
                calls_ok(self.fn_calls_view(), self.bytes().len() as int),
                self.entry_spec() == old(self).entry_spec(),
            decreases nops - j,
        {
            let op = &bb.ops[j];
            proof {
                assert(op_imm_ok(bb.ops@[j as int]));
                assert forall|v: u32| #[trigger] op.mentions(v) implies em.alloc_spec().has_guard(
                    v,
                    j as int,
                ) by {
                    assert(bb.ops@[j as int].mentions(v));
                }
            }
            let ghost pre_bytes = self.bytes();
            let ghost pre_log = self.stacks_view();
            let ghost pre_fix = self.fn_calls_view();
            em.asm_op(self, op, j);
            proof {
                let opb = op_bytes(gal, bb.ops@[j as int], j as int, pre_log);
                assert(block_bytes(gal, bb.ops@, j as int, pre_log) == opb + block_bytes(
                    gal,
                    bb.ops@,
                    j + 1,
                    op_log(bb.ops@[j as int], pre_log),
                ));
                assert(self.bytes() + block_bytes(gal, bb.ops@, j + 1, self.stacks_view()) =~= (
                pre_bytes + opb) + block_bytes(gal, bb.ops@, j + 1, self.stacks_view()));
                assert((pre_bytes + opb) + block_bytes(gal, bb.ops@, j + 1, self.stacks_view())
                    =~= pre_bytes + (opb + block_bytes(gal, bb.ops@, j + 1, self.stacks_view())));
                assert(self.bytes().subrange(0, base as int) =~= pre_bytes.subrange(
                    0,
                    base as int,
                ));
                let opf = op_fixup(gal, bb.ops@[j as int], j as int, pre_bytes.len() as int);
                assert(block_fixups(gal, bb.ops@, j as int, pre_bytes.len() as int, pre_log)
                    == opf + block_fixups(
                    gal,
                    bb.ops@,
                    j + 1,
                    pre_bytes.len() + opb.len() as int,
                    op_log(bb.ops@[j as int], pre_log),
                ));
                assert(self.fn_calls_view() + block_fixups(
                    gal,
                    bb.ops@,
                    j + 1,
                    self.bytes().len() as int,
                    self.stacks_view(),
                ) =~= pre_fix + (opf + block_fixups(
                    gal,
                    bb.ops@,
                    j + 1,
                    self.bytes().len() as int,
                    self.stacks_view(),
                )));
            }
            j += 1;
        }
        proof {
            assert(block_bytes(gal, bb.ops@, nops as int, self.stacks_view())
                == Seq::<u8>::empty());
            assert(self.bytes() =~= self.bytes() + Seq::<u8>::empty());
            assert(self.bytes() =~= old(self).bytes() + item_code(*item, gal, old(self).stacks_view()));
            assert(block_fixups(
                gal,
                bb.ops@,
                nops as int,
                self.bytes().len() as int,
                self.stacks_view(),
            ) == Seq::<(String, usize)>::empty());
            assert(self.fn_calls_view() =~= self.fn_calls_view() + Seq::<(String, usize)>::empty());
            assert(self.fn_calls_view() =~= old(self).fn_calls_view() + item_fixups(
                *item,
                gal,
                old(self).bytes().len() as int,
                old(self).stacks_view(),
            ));
        }
        em.into_alloc()
    }

    /// Assembles the whole program: every function in order, then the
    /// entry stub that calls `main` and invokes the `exit` syscall, then
    /// patches every recorded call placeholder with the `BL` word computed
    /// from its callee's recorded offset.
    #[verifier::rlimit(100)]
    #[verifier::spinoff_prover]
    pub fn assemble_program(ir: IR) -> (code: MachineCode)
        requires
            ir_ok(ir),
        ensures
            exists|als: Seq<Allocator>, mn: String|
                #![trigger als.len(), mn@]
                {
                    &&& als.len() == ir.items@.len()
                    &&& (forall|it: int|
                        0 <= it < ir.items@.len() ==> match #[trigger] ir.items@[it] {
                            Item::Function { name: _, bb } => allocate_post(bb, als[it]),
                        })
                    &&& mn@ == "main"@
                    &&& code.entry_point_offset == program_code(
                        ir.items@,
                        als,
                        ir.items@.len() as int,
                    ).len()
                    &&& code.instructions@ == apply_fixups(
                        program_code(ir.items@, als, ir.items@.len() as int) + stub_bytes(),
                        program_fixups(ir.items@, als, ir.items@.len() as int).push(
                            (mn, code.entry_point_offset as usize),
                        ),
                        program_offsets(ir.items@, als, ir.items@.len() as int),
                        0,
                    )
                },
            code.instructions@.len() % 4 == 0,
            code.instructions@.len() >= 12,
            code.entry_point_offset + 12 == code.instructions@.len(),
    {
        let mut emitter = ArmAssembler::new();
        let nitems = ir.items.len();
        let ghost gitems = ir.items@;
        let ghost mut als: Seq<Allocator> = Seq::empty();
        let mut it: usize = 0;
        while it < nitems
            invariant
                nitems == gitems.len(),
                gitems == ir.items@,
                nitems <= MAX_FUNCTIONS,
                0 <= it <= nitems,
                ir_ok(ir),
                als.len() == it,
                forall|k: int|
                    0 <= k < it ==> match #[trigger] gitems[k] {
                        Item::Function { name: _, bb } => allocate_post(bb, als[k]),
                    },
                emitter.bytes() == program_code(gitems, als, it as int),
                emitter.functions_view() == program_offsets(gitems, als, it as int),
                emitter.fn_calls_view() == program_fixups(gitems, als, it as int),
                emitter.stacks_view() == program_log(gitems, als, it as int),
                log_ok(emitter.stacks_view()),
                emitter.bytes().len() <= it * MAX_FN_BYTES,
                emitter.bytes().len() % 4 == 0,
                calls_ok(emitter.fn_calls_view(), emitter.bytes().len() as int),
                emitter.entry_spec() == 0,
            decreases nitems - it,
        {
            let item = &ir.items[it];
            proof {
                assert(match gitems[it as int] {
                    Item::Function { name: _, bb } => block_ok(bb),
                });
            }
            let ghost pre = emitter;
            let al = emitter.asm_item(item);
            proof {
                let olds = als;
                als = als.push(al);
                assert forall|k: int| 0 <= k < it + 1 implies match #[trigger] gitems[k] {
                    Item::Function { name: _, bb } => allocate_post(bb, als[k]),
                } by {
                    if k < it {
                        assert(als[k] == olds[k]);
                    }
                }
                lemma_program_frame(gitems, olds, als, it as int);
                assert(als[it as int] == al);
                assert(emitter.bytes() =~= program_code(gitems, als, it + 1));
                assert(emitter.functions_view() =~= program_offsets(gitems, als, it + 1));
                assert(emitter.fn_calls_view() =~= program_fixups(gitems, als, it + 1));
                assert(emitter.stacks_view() =~= program_log(gitems, als, it + 1));
            }
            it += 1;
        }
        // the entry stub: call main, move the exit syscall number, trap
        let ghost pre_code = emitter.bytes();
        let entry = emitter.current_offset();
        emitter.code.entry_point_offset = entry as u64;
        let stub = OpEmitter::new(Allocator::default());
        let main_name: String = ("main").to_owned();
        let ghost gmain = main_name;
        stub.emit_call(&mut emitter, main_name, None, 0);
        emitter.emit(Movz { shift: ImmShift::L0, imm_value: 0x1, dest_reg: Reg::X16 });
        emitter.emit(Syscall);
        proof {
            assert(emitter.bytes().len() == entry + 12);
            assert(!has_save(stub.alloc_spec(), 0));
            assert(saves_at(stub.alloc_spec(), 0).len() == 0);
            assert(stores_bytes(saves_at(stub.alloc_spec(), 0)) =~= Seq::<u8>::empty());
            assert(call_op_bytes(stub.alloc_spec(), None, 0) =~= le4((Nop).encoding()));
            assert(emitter.bytes() =~= pre_code + stub_bytes());
            assert(emitter.fn_calls_view() =~= program_fixups(gitems, als, nitems as int).push(
                (gmain, entry as usize),
            ));
        }
        let ghost pre_patch = emitter.bytes();
        let ghost all_fixes = emitter.fn_calls_view();
        let ghost all_offs = emitter.functions_view();
        // patch every recorded call
        let nfix = emitter.fn_calls.len();
        let mut q: usize = 0;
        while q < nfix
            invariant
                nfix == emitter.fn_calls_view().len(),
                0 <= q <= nfix,
                all_fixes == emitter.fn_calls_view(),
                all_offs == emitter.functions_view(),
                apply_fixups(emitter.bytes(), all_fixes, all_offs, q as int) == apply_fixups(
                    pre_patch,
                    all_fixes,
                    all_offs,
                    0,
                ),
                emitter.bytes().len() == entry + 12,
                emitter.bytes().len() % 4 == 0,
                calls_ok(emitter.fn_calls_view(), emitter.bytes().len() as int),
                emitter.entry_spec() == entry,
                emitter.bytes().len() < 0x4000000,
                gitems == ir.items@,
                ir_ok(ir),
                nitems == gitems.len(),
                als.len() == nitems,
                gmain@ == "main"@,
                all_offs == program_offsets(gitems, als, nitems as int),
                all_fixes == program_fixups(gitems, als, nitems as int).push(
                    (gmain, entry as usize),
                ),
            decreases nfix - q,
        {
            let ghost pre_bytes = emitter.bytes();
            proof {
                // every recorded name is a defined function, so the lookup
                // below cannot miss
                let nm = all_fixes[q as int].0@;
                let progfix = program_fixups(gitems, als, nitems as int);
                if q < progfix.len() {
                    lemma_program_fixups_names(gitems, als, nitems as int);
                    assert(all_fixes[q as int] == progfix[q as int]);
                    assert(prog_call_named(gitems, nitems as int, nm));
                    let it2 = choose|it2: int|
                        0 <= it2 < nitems && (match #[trigger] gitems[it2] {
                            Item::Function { name: _, bb } => call_named(bb.ops@, nm),
                        });
                    match gitems[it2] {
                        Item::Function { name: _, bb } => {
                            let jj = choose|jj: int|
                                0 <= jj < bb.ops@.len() && (match #[trigger] bb.ops@[jj] {
                                    Operation::Call { function, dest: _ } => function@ == nm,
                                    _ => false,
                                });
                            assert(match call_target(gitems, it2, jj) {
                                Some(t) => t@ == nm,
                                None => false,
                            });
                            assert(item_named(gitems, nm));
                        },
                    }
                } else {
                    assert(all_fixes[q as int] == (gmain, entry as usize));
                    assert(item_named(gitems, nm));
                }
                let k = choose|k: int|
                    0 <= k < gitems.len() && #[trigger] item_name(gitems[k]) == nm;
                lemma_program_offsets_names(gitems, als, nitems as int);
                assert(all_offs[k].0@ == nm);
                lemma_offset_of_found(all_offs, nm, 0);
            }
            let callee_offset = find_function(&emitter.functions, &emitter.fn_calls[q].0);
            match callee_offset {
                Some(fn_offset) => {
                    let call_offset = emitter.fn_calls[q].1;
                    if fn_offset < emitter.code.instructions.len() && call_offset + 4
                        <= emitter.code.instructions.len() {
                        let rel: i64 = if fn_offset >= call_offset {
                            ((fn_offset - call_offset) / 4) as i64
                        } else {
                            0i64 - (((call_offset - fn_offset) / 4) as i64)
                        };
                        proof {
                            assert(rel == bl_addr(fn_offset as int, call_offset as int));
                            assert(-0x2000000 <= rel < 0x2000000) by {
                                if fn_offset >= call_offset {
                                    assert((fn_offset - call_offset) / 4 < 0x1000000) by (nonlinear_arith)
                                        requires
                                            fn_offset - call_offset < 0x4000000,
                                            fn_offset >= call_offset,
                                    ;
                                } else {
                                    assert((call_offset - fn_offset) / 4 < 0x1000000) by (nonlinear_arith)
                                        requires
                                            call_offset - fn_offset < 0x4000000,
                                            call_offset > fn_offset,
                                    ;
                                }
                            }
                        }
                        emitter.emit_at(call_offset, BranchLink { addr: rel as i32 });
                        proof {
                            assert(emitter.bytes() =~= patch_one(
                                pre_bytes,
                                all_fixes[q as int],
                                all_offs,
                            ));
                        }
                    } else {
                        proof {
                            assert(emitter.bytes() =~= patch_one(
                                pre_bytes,
                                all_fixes[q as int],
                                all_offs,
                            ));
                        }
                    }
                },
                None => {
                    // unreachable: every callee is defined, so the lookup
                    // found an offset
                    proof {
                        assert(false);
                    }
                },
            }
            q += 1;
        }
        proof {
            assert(apply_fixups(emitter.bytes(), all_fixes, all_offs, nfix as int)
                == emitter.bytes());
        }
        emitter.code
    }
}

/// Some operation of the block calls a function of this name.
pub open spec fn call_named(ops: Seq<Operation>, nm: Seq<char>) -> bool {
    exists|jj: int|
        0 <= jj < ops.len() && (match #[trigger] ops[jj] {
            Operation::Call { function, dest: _ } => function@ == nm,
            _ => false,
        })
}

/// Some of the first `n` items calls a function of this name.
pub open spec fn prog_call_named(items: Seq<Item>, n: int, nm: Seq<char>) -> bool {
    exists|it: int|
        0 <= it < n && (match #[trigger] items[it] {
            Item::Function { name: _, bb } => call_named(bb.ops@, nm),
        })
}

/// Every fixup entry a block records names one of its call targets.
#[verifier::rlimit(100)]
#[verifier::spinoff_prover]
proof fn lemma_block_fixups_names(
    al: Allocator,
    ops: Seq<Operation>,
    j: int,
    pos: int,
    log: Seq<u16>,
)
    ensures
        forall|t: int|
            0 <= t < block_fixups(al, ops, j, pos, log).len() ==> call_named(
                ops,
                (#[trigger] block_fixups(al, ops, j, pos, log)[t]).0@,
            ),
    decreases ops.len() - j,
{
    if 0 <= j < ops.len() {
        let head = op_fixup(al, ops[j], j, pos);
        let rest_pos = pos + op_bytes(al, ops[j], j, log).len();
        let rest_log = op_log(ops[j], log);
        let tail = block_fixups(al, ops, j + 1, rest_pos, rest_log);
        lemma_block_fixups_names(al, ops, j + 1, rest_pos, rest_log);
        assert forall|t: int|
            0 <= t < block_fixups(al, ops, j, pos, log).len() implies call_named(
            ops,
            (#[trigger] block_fixups(al, ops, j, pos, log)[t]).0@,
        ) by {
            if t < head.len() {
                match ops[j] {
                    Operation::Call { function, dest: _ } => {
                        assert(block_fixups(al, ops, j, pos, log)[t] == head[0]);
                        assert(head[0].0 == function);
                        assert(call_named(ops, function@));
                    },
                    _ => {
                        assert(false);
                    },
                }
            } else {
                assert(block_fixups(al, ops, j, pos, log)[t] == tail[t - head.len()]);
                assert(call_named(ops, tail[t - head.len()].0@));
            }
        }
    }
}

/// Every fixup entry the first `n` functions record names a call target of
/// one of them.
#[verifier::rlimit(100)]
#[verifier::spinoff_prover]
proof fn lemma_program_fixups_names(items: Seq<Item>, als: Seq<Allocator>, n: int)
    requires
        n <= items.len(),
    ensures
        forall|t: int|
            0 <= t < program_fixups(items, als, n).len() ==> prog_call_named(
                items,
                n,
                (#[trigger] program_fixups(items, als, n)[t]).0@,
            ),
    decreases n,
{
    if n > 0 {
        lemma_program_fixups_names(items, als, n - 1);
        let prev = program_fixups(items, als, n - 1);
        let pos0 = program_code(items, als, n - 1).len() as int;
        let log0 = program_log(items, als, n - 1);
        let here = item_fixups(items[n - 1], als[n - 1], pos0, log0);
        assert forall|t: int|
            0 <= t < program_fixups(items, als, n).len() implies prog_call_named(
            items,
            n,
            (#[trigger] program_fixups(items, als, n)[t]).0@,
        ) by {
            if t < prev.len() {
                assert(program_fixups(items, als, n)[t] == prev[t]);
                assert(prog_call_named(items, n - 1, prev[t].0@));
                let it = choose|it: int|
                    0 <= it < n - 1 && (match #[trigger] items[it] {
                        Item::Function { name: _, bb } => call_named(bb.ops@, prev[t].0@),
                    });
                assert(0 <= it < n);
            } else {
                assert(program_fixups(items, als, n)[t] == here[t - prev.len()]);
                match items[n - 1] {
                    Item::Function { name: _, bb } => {
                        let adj = log0.push(frame_adjust(als[n - 1].stack_size_spec()));
                        let ppos = pos0 + prologue_bytes(als[n - 1].stack_size_spec()).len();
                        lemma_block_fixups_names(als[n - 1], bb.ops@, 0, ppos, adj);
                        assert(call_named(bb.ops@, here[t - prev.len()].0@));
                    },
                }
            }
        }
    }
}

/// The recorded offset table lists exactly the item names, in order, each
/// at a position inside the emitted code.
#[verifier::rlimit(100)]
proof fn lemma_program_offsets_names(items: Seq<Item>, als: Seq<Allocator>, n: int)
    ensures
        program_offsets(items, als, n).len() == (if n <= 0 {
            0
        } else {
            n
        }),
        forall|k: int|
            0 <= k < n ==> item_name(items[k]) == (#[trigger] program_offsets(
                items,
                als,
                n,
            )[k]).0@ && program_offsets(items, als, n)[k].1 <= program_code(
                items,
                als,
                n,
            ).len(),
    decreases n,
{
    if n > 0 {
        lemma_program_offsets_names(items, als, n - 1);
        assert forall|k: int|
            0 <= k < n implies item_name(items[k]) == (#[trigger] program_offsets(
            items,
            als,
            n,
        )[k]).0@ && program_offsets(items, als, n)[k].1 <= program_code(items, als, n).len() by {
            if k < n - 1 {
                assert(program_offsets(items, als, n)[k] == program_offsets(items, als, n - 1)[k]);
            } else {
                match items[n - 1] {
                    Item::Function { name, bb: _ } => {
                        assert(program_offsets(items, als, n)[k] == (
                            name,
                            program_code(items, als, n - 1).len() as usize,
                        ));
                    },
                }
            }
        }
    }
}

/// A name some scanned entry carries is found.
proof fn lemma_offset_of_found(offs: Seq<(String, usize)>, nm: Seq<char>, q: int)
    requires
        exists|k: int| q <= k < offs.len() && (#[trigger] offs[k]).0@ == nm,
        0 <= q,
    ensures
        offset_of(offs, nm, q) is Some,
    decreases offs.len() - q,
{
    if offs[q].0@ == nm {
    } else {
        let k = choose|k: int| q <= k < offs.len() && (#[trigger] offs[k]).0@ == nm;
        assert(k > q);
        assert(exists|k2: int| q + 1 <= k2 < offs.len() && (#[trigger] offs[k2]).0@ == nm);
        lemma_offset_of_found(offs, nm, q + 1);
    }
}

/// A found offset is one of the recorded entries.
proof fn lemma_offset_of_entry(offs: Seq<(String, usize)>, nm: Seq<char>, q: int, fo: usize)
    requires
        offset_of(offs, nm, q) == Some(fo),
        0 <= q,
    ensures
        exists|k: int| q <= k < offs.len() && (#[trigger] offs[k]).1 == fo,
    decreases offs.len() - q,
{
    if q < offs.len() && offs[q].0@ == nm {
    } else {
        lemma_offset_of_entry(offs, nm, q + 1, fo);
    }
}

/// Looks up a recorded function's byte offset by name: the first entry
/// that carries the name, if any.
fn find_function(functions: &Vec<(String, usize)>, name: &String) -> (r: Option<usize>)
    ensures
        r == offset_of(functions@, name@, 0),
{
    let n = functions.len();
    let mut k: usize = 0;
    while k < n
        invariant
            n == functions@.len(),
            0 <= k <= n,
            offset_of(functions@, name@, 0) == offset_of(functions@, name@, k as int),
        decreases n - k,
    {
        if functions[k].0 == *name {
            let off = functions[k].1;
            proof {
                assert(functions@[k as int].0@ == name@ && functions@[k as int].1 == off);
            }
            return Some(off);
        }
        k += 1;
    }
    None
}

/// Checks one operation's operands against the encoder's ranges.
fn check_op(op: &Operation) -> (b: bool)
    ensures
        b == op_imm_ok(*op),
{
    match op {
        Operation::Assign { src, dest: _ } => match src {
            SourceVal::Immediate(n) => 0 <= *n && *n < 65536,
            SourceVal::VReg(_) => true,
        },
        Operation::Add { a, b, dest: _ } => match (a, b) {
            (SourceVal::Immediate(x), SourceVal::Immediate(y)) => 0 <= *x && 0 <= *y && *x < 65536
                && *y < 65536 && *x + *y < 65536,
            (SourceVal::Immediate(n), SourceVal::VReg(_)) => 0 <= *n && *n <= 2047,
            (SourceVal::VReg(_), SourceVal::Immediate(n)) => 0 <= *n && *n <= 2047,
            _ => true,
        },
        Operation::Subtract { a, b, dest: _ } => match (a, b) {
            (SourceVal::Immediate(x), SourceVal::Immediate(y)) => 0 <= *y && *y <= *x && *x - *y
                < 65536,
            (SourceVal::Immediate(n), SourceVal::VReg(_)) => 0 <= *n && *n <= 2047,
            (SourceVal::VReg(_), SourceVal::Immediate(n)) => 0 <= *n && *n <= 2047,
            _ => true,
        },
        Operation::Multiply { .. } => true,
        Operation::Divide { a, b, dest: _ } => {
            let ra = match a {
                SourceVal::VReg(_) => true,
                _ => false,
            };
            let rb = match b {
                SourceVal::VReg(_) => true,
                _ => false,
            };
            ra && rb
        },
        Operation::Return { value } => match value {
            SourceVal::Immediate(n) => 0 <= *n && *n < 65536,
            SourceVal::VReg(_) => true,
        },
        Operation::Call { .. } => true,
    }
}

/// True when some item carries this name.
fn has_item_named(items: &Vec<Item>, nm: &String) -> (b: bool)
    ensures
        b == item_named(items@, nm@),
{
    let n = items.len();
    let mut k: usize = 0;
    while k < n
        invariant
            n == items@.len(),
            0 <= k <= n,
            forall|kk: int| 0 <= kk < k ==> #[trigger] item_name(items@[kk]) != nm@,
        decreases n - k,
    {
        let name = match &items[k] {
            Item::Function { name, bb: _ } => name,
        };
        if *name == *nm {
            proof {
                assert(item_name(items@[k as int]) == nm@);
            }
            return true;
        }
        k += 1;
    }
    proof {
        assert forall|kk: int|
            0 <= kk < items@.len() implies #[trigger] item_name(items@[kk]) != nm@ by {}
    }
    false
}

/// Checks a whole program against the emitter's ranges: block sizes and
/// operand ranges, every callee defined, and `main` present.
#[verifier::rlimit(100)]
#[verifier::spinoff_prover]
pub fn check_ir(ir: &IR) -> (b: bool)
    ensures
        b == ir_ok(*ir),
{
    let nitems = ir.items.len();
    if nitems > MAX_FUNCTIONS {
        return false;
    }
    let mut it: usize = 0;
    while it < nitems
        invariant
            nitems == ir.items@.len(),
            nitems <= MAX_FUNCTIONS,
            0 <= it <= nitems,
            forall|k: int|
                0 <= k < it ==> match #[trigger] ir.items@[k] {
                    Item::Function { name: _, bb } => block_ok(bb),
                },
            forall|k: int, j: int|
                #![trigger call_target(ir.items@, k, j)]
                0 <= k < it ==> match call_target(ir.items@, k, j) {
                    Some(nm) => item_named(ir.items@, nm@),
                    None => true,
                },
        decreases nitems - it,
    {
        let bb = match &ir.items[it] {
            Item::Function { name: _, bb } => bb,
        };
        let nops = bb.ops.len();
        if nops > MAX_BLOCK_OPS {
            proof {
                assert(match ir.items@[it as int] {
                    Item::Function { name: _, bb: b2 } => !block_ok(b2),
                });
            }
            return false;
        }
        let mut j: usize = 0;
        while j < nops
            invariant
                nitems == ir.items@.len(),
                0 <= it < nitems,
                nops == bb.ops@.len(),
                0 <= j <= nops,
                *bb == (match ir.items@[it as int] {
                    Item::Function { name: _, bb: b2 } => b2,
                }),
                forall|k: int| 0 <= k < j ==> op_imm_ok(#[trigger] bb.ops@[k]),
                forall|jj: int|
                    #![trigger call_target(ir.items@, it as int, jj)]
                    0 <= jj < j ==> match call_target(ir.items@, it as int, jj) {
                        Some(nm) => item_named(ir.items@, nm@),
                        None => true,
                    },
            decreases nops - j,
        {
            if !check_op(&bb.ops[j]) {
                proof {
                    assert(!block_ok(*bb));
                    assert(match ir.items@[it as int] {
                        Item::Function { name: _, bb: b2 } => !block_ok(b2),
                    });
                }
                return false;
            }
            match &bb.ops[j] {
                Operation::Call { function, dest: _ } => {
                    if !has_item_named(&ir.items, function) {
                        proof {
                            assert(call_target(ir.items@, it as int, j as int) == Some(*function));
                            assert(!ir_ok(*ir));
                        }
                        return false;
                    }
                    proof {
                        assert(call_target(ir.items@, it as int, j as int) == Some(*function));
                    }
                },
                _ => {
                    proof {
                        assert(call_target(ir.items@, it as int, j as int) is None);
                    }
                },
            }
            j += 1;
        }
        proof {
            assert(match ir.items@[it as int] {
                Item::Function { name: _, bb: bb2 } => block_ok(bb2),
            });
            assert forall|jj: int|
                true implies match #[trigger] call_target(ir.items@, it as int, jj) {
                Some(nm) => item_named(ir.items@, nm@),
                None => true,
            } by {
                if jj < 0 || jj >= bb.ops@.len() {
                    assert(call_target(ir.items@, it as int, jj) is None);
                }
            }
        }
        it += 1;
    }
    let main_name: String = ("main").to_owned();
    if !has_item_named(&ir.items, &main_name) {
        return false;
    }
    true
}

impl Assemble for ArmAssembler {
    /// The program must lie within the emitter's ranges, call only defined
    /// functions, and define `main`; `check_ir` decides that at run time.
    open spec fn input_ok(ir: IR) -> bool {
        ir_ok(ir)
    }

    fn assemble(ir: IR) -> MachineCode {
        ArmAssembler::assemble_program(ir)
    }
}

} // verus!
