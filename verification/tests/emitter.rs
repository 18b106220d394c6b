//! Instruction encodings against known-good words, liveness analysis, and
//! whole programs assembled to exact byte streams.

use claks::analyze::ast::{Expression, ExprType, Item as AstItem, SemanticType, Span, Statement, AST};
use claks::synthesize::exe::ExecutableError;
use claks::analyze::token::{Keyword, Operator};
use claks::ir::{BasicBlock, Item, Operation, SourceVal, VirtualReg, IR};
use claks::synthesize::arch::arm::instr::{
    add_reg, Add, BranchLink, Div, ImmShift, Input, Instruction, Load, LoadPair, MovReg, Movz,
    Mul, Nop, Ret, Store, StorePair, Svc, Syscall,
};
use claks::synthesize::arch::arm::reg::Register;
use claks::synthesize::arch::arm::ArmAssembler;
use claks::synthesize::arch::{Assemble, MachineCode};
use claks::synthesize::exe::mac::AppleExecutable;

#[test]
fn encodes_ret_and_nop() {
    assert_eq!(Ret.encode(), 0xD65F03C0);
    assert_eq!(Nop.encode(), 0xD503201F);
}

#[test]
fn encodes_moves() {
    // movz x0, #0
    assert_eq!(
        Movz { shift: ImmShift::L0, imm_value: 0, dest_reg: Register::X0 }.encode(),
        0xD2800000
    );
    // movz x16, #1
    assert_eq!(
        Movz { shift: ImmShift::L0, imm_value: 1, dest_reg: Register::X16 }.encode(),
        0xD2800030
    );
    // mov x29, sp (ORR form)
    assert_eq!(MovReg { src: Register::SP, dest: Register::FP }.encode(), 0xAA1F03FD);
}

#[test]
fn encodes_arithmetic() {
    // add x2, x0, x1
    assert_eq!(add_reg(Register::X0, Register::X1, Register::X2), 0x8B000022);
    // add x2, x0, #4
    assert_eq!(
        Add { a: Register::X0, b: Input::Imm(4), dest: Register::X2 }.encode(),
        0x91001002
    );
}

#[test]
fn encodes_loads_and_stores() {
    // ldr x3, [sp, #8]
    assert_eq!(Load { stack_offset: 8, dest: Register::X3 }.encode(), 0xF94007E3);
    // str x3, [sp, #8]
    assert_eq!(
        Store { base: Register::SP, offset: Input::Imm(8), value: Register::X3 }.encode(),
        0xF90007E3
    );
    // stp x29, x30, [sp, #-16]!
    assert_eq!(
        StorePair {
            base: Register::SP,
            first: Register::FP,
            second: Register::LR,
            offset: -2,
        }
        .encode(),
        0xA9BF7BFD
    );
    // ldp x29, x30, [sp], #16
    assert_eq!(
        LoadPair { base: Register::SP, first: Register::FP, second: Register::LR, offset: 2 }
            .encode(),
        0xA8C17BFD
    );
}

#[test]
fn encodes_branch_mul_div_svc() {
    // bl back five instructions
    assert_eq!(BranchLink { addr: -5 }.encode(), 0x97FFFFFB);
    // bl forward three instructions
    assert_eq!(BranchLink { addr: 3 }.encode(), 0x94000003);
    // mul x2, x0, x1
    assert_eq!(
        Mul { a: Register::X0, b: Register::X1, dest: Register::X2 }.encode(),
        0x9B017C02
    );
    // sdiv x2, x0, x1
    assert_eq!(
        Div { a: Register::X0, b: Register::X1, dest: Register::X2, signed: true }.encode(),
        0x9AC10C02
    );
    // svc #0x80
    assert_eq!(Svc { imm: 0x80 }.encode(), 0xD4001001);
    assert_eq!(Syscall.encode(), 0xD4001001);
}

fn words(code: &MachineCode) -> Vec<u32> {
    let b = &code.instructions;
    assert_eq!(b.len() % 4, 0);
    let mut out = Vec::new();
    let mut i = 0;
    while i < b.len() {
        out.push(u32::from_le_bytes([b[i], b[i + 1], b[i + 2], b[i + 3]]));
        i += 4;
    }
    out
}

#[test]
fn assembles_return_zero_program() {
    let ir = IR {
        items: vec![Item::Function {
            name: String::from("main"),
            bb: BasicBlock { ops: vec![Operation::Return { value: SourceVal::Immediate(0) }] },
        }],
    };
    let code = ArmAssembler::assemble(ir);
    assert_eq!(code.entry_point_offset, 20);
    let ws = words(&code);
    assert_eq!(
        ws,
        vec![
            0xA9BF7BFD, // stp x29, x30, [sp, #-16]!
            0xAA1F03FD, // mov x29, sp
            0xD2800000, // movz x0, #0
            0xA8C17BFD, // ldp x29, x30, [sp], #16
            0xD65F03C0, // ret
            0x97FFFFFB, // bl main
            0xD2800030, // movz x16, #1
            0xD4001001, // svc #0x80
        ]
    );
}

#[test]
fn assembles_sum_program() {
    // a := 2; b := 3; return a + b
    let ir = IR {
        items: vec![Item::Function {
            name: String::from("main"),
            bb: BasicBlock {
                ops: vec![
                    Operation::Assign { src: SourceVal::Immediate(2), dest: VirtualReg(0) },
                    Operation::Assign { src: SourceVal::Immediate(3), dest: VirtualReg(1) },
                    Operation::Add {
                        a: SourceVal::VReg(VirtualReg(0)),
                        b: SourceVal::VReg(VirtualReg(1)),
                        dest: VirtualReg(2),
                    },
                    Operation::Return { value: SourceVal::VReg(VirtualReg(2)) },
                ],
            },
        }],
    };
    let code = ArmAssembler::assemble(ir);
    let ws = words(&code);
    assert_eq!(
        ws,
        vec![
            0xA9BF7BFD, // stp x29, x30, [sp, #-16]!
            0xAA1F03FD, // mov x29, sp
            0xD280004F, // movz x15, #2
            0xD280006E, // movz x14, #3
            0x8B0F01CD, // add x13, x15, x14
            0xAA0D03E0, // mov x0, x13
            0xA8C17BFD, // ldp x29, x30, [sp], #16
            0xD65F03C0, // ret
            0x97FFFFF8, // bl main
            0xD2800030, // movz x16, #1
            0xD4001001, // svc #0x80
        ]
    );
}

#[test]
fn lifetimes_cover_exactly_the_mentions() {
    let bb = BasicBlock {
        ops: vec![
            Operation::Assign { src: SourceVal::Immediate(1), dest: VirtualReg(0) },
            Operation::Assign { src: SourceVal::Immediate(2), dest: VirtualReg(1) },
            Operation::Return { value: SourceVal::VReg(VirtualReg(0)) },
        ],
    };
    let lts = bb.lifetimes();
    assert_eq!(lts.len(), 2);
    // v0 is mentioned at 0 and 2: two separate runs
    let k0 = lts.find_index(0).unwrap();
    let l0 = lts.lifetime_at(k0);
    assert_eq!(l0.intervals().len(), 2);
    assert_eq!(l0.start(), Some(0));
    assert_eq!(l0.end(), Some(3));
    assert_eq!(l0.next_use_after(0), Some(2));
    assert_eq!(l0.next_use_after(2), None);
    assert!(l0.at(1).is_none());
    assert!(l0.at(2).is_some());
    // v1 is mentioned only at 1
    let k1 = lts.find_index(1).unwrap();
    let l1 = lts.lifetime_at(k1);
    assert_eq!(l1.intervals().len(), 1);
    assert_eq!(l1.start(), Some(1));
    assert_eq!(l1.end(), Some(2));
}

#[test]
fn vregs_used_lists_each_register_once() {
    let op = Operation::Add {
        a: SourceVal::VReg(VirtualReg(4)),
        b: SourceVal::VReg(VirtualReg(4)),
        dest: VirtualReg(4),
    };
    let mut out = Vec::new();
    op.vregs_used(&mut out);
    assert_eq!(out, vec![VirtualReg(4)]);
}

#[test]
fn tokens_and_types_parse() {
    assert_eq!(Operator::parse(':', Some('=')), Some((Operator::Declare, true)));
    assert_eq!(Operator::parse('+', None), Some((Operator::Plus, false)));
    assert_eq!(Operator::parse('q', None), None);
    assert_eq!(Keyword::parse("fn"), Some(Keyword::Function));
    assert_eq!(Keyword::parse("return"), Some(Keyword::Return));
    assert_eq!(Keyword::parse("while"), None);
    assert!(matches!(SemanticType::parse("i64"), SemanticType::I64));
    assert!(matches!(SemanticType::parse("char"), SemanticType::Char));
    assert!(matches!(SemanticType::parse("()"), SemanticType::Unit));
    assert!(matches!(SemanticType::parse("Foo"), SemanticType::UserType(_)));
}

#[test]
fn image_places_code_and_entry() {
    let code = MachineCode {
        instructions: vec![0xFD, 0x7B, 0xBF, 0xA9, 0xC0, 0x03, 0x5F, 0xD6],
        entry_point_offset: 0,
    };
    let exe = AppleExecutable::new(Some(String::from("claks.test")));
    let image = exe.image(&code);
    // one 16-KiB page of text plus the 16-byte signature blob
    assert_eq!(image.len(), 0x4000 + 16);
    // the magic number leads the file
    assert_eq!(&image[0..4], &[0xCF, 0xFA, 0xED, 0xFE]);
    // the machine code sits at its fixed offset
    assert_eq!(&image[504..512], &code.instructions[..]);
    // the entry-point command points at the code
    assert_eq!(&image[264..272], &504u64.to_le_bytes());
    // the signature superblob closes the file
    assert_eq!(&image[0x4000..0x4004], &0xfade0cc0u32.to_le_bytes());
}

#[test]
fn generates_ir_from_ast() {
    let span = Span { start: 0, end: 0 };
    let ast = AST {
        items: vec![AstItem::Function {
            name: String::from("main"),
            args: None,
            body: vec![
                Statement::Declare {
                    var: String::from("a"),
                    expr: Expression { expr_type: ExprType::Const(2), range: span },
                    var_range: span,
                },
                Statement::Return(Expression {
                    expr_type: ExprType::Variable(String::from("a")),
                    range: span,
                }),
            ],
            ret_type: SemanticType::I64,
            decl_range: span,
        }],
    };
    let ir = IR::generate(ast);
    assert_eq!(ir.items.len(), 1);
    let Item::Function { name, bb } = &ir.items[0];
    assert_eq!(name, "main");
    assert_eq!(bb.ops.len(), 2);
    assert!(matches!(
        bb.ops[0],
        Operation::Assign { src: SourceVal::Immediate(2), dest: VirtualReg(0) }
    ));
    assert!(matches!(
        bb.ops[1],
        Operation::Return { value: SourceVal::VReg(VirtualReg(0)) }
    ));
}

#[test]
fn assembles_function_call_program() {
    // fn add(a, b) { return a + b; }  fn main() { return add(2, 3); }
    // argument passing is outside the back end; the call and the fixup
    // machinery are what this exercises
    let ir = IR {
        items: vec![
            Item::Function {
                name: String::from("add"),
                bb: BasicBlock {
                    ops: vec![
                        Operation::Add {
                            a: SourceVal::VReg(VirtualReg(0)),
                            b: SourceVal::VReg(VirtualReg(1)),
                            dest: VirtualReg(2),
                        },
                        Operation::Return { value: SourceVal::VReg(VirtualReg(2)) },
                    ],
                },
            },
            Item::Function {
                name: String::from("main"),
                bb: BasicBlock {
                    ops: vec![
                        Operation::Call { function: String::from("add"), dest: Some(VirtualReg(0)) },
                        Operation::Return { value: SourceVal::VReg(VirtualReg(0)) },
                    ],
                },
            },
        ],
    };
    let code = ArmAssembler::assemble(ir);
    assert_eq!(code.entry_point_offset, 52);
    let ws = words(&code);
    assert_eq!(
        ws,
        vec![
            0xA9BF7BFD, // add: stp x29, x30, [sp, #-16]!
            0xAA1F03FD, //      mov x29, sp
            0x8B0F01CD, //      add x13, x15, x14
            0xAA0D03E0, //      mov x0, x13
            0xA8C17BFD, //      ldp x29, x30, [sp], #16
            0xD65F03C0, //      ret
            0xA9BF7BFD, // main: stp x29, x30, [sp, #-16]!
            0xAA1F03FD, //      mov x29, sp
            0x97FFFFF8, //      bl add (patched placeholder)
            0xAA0003EF, //      mov x15, x0
            0xAA0F03E0, //      mov x0, x15
            0xA8C17BFD, //      ldp x29, x30, [sp], #16
            0xD65F03C0, //      ret
            0x97FFFFF9, // bl main (patched placeholder)
            0xD2800030, // movz x16, #1
            0xD4001001, // svc #0x80
        ]
    );
}

#[test]
fn semantic_type_names() {
    assert_eq!(SemanticType::I64.name(), "i64");
    assert_eq!(SemanticType::Unit.name(), "()");
    assert_eq!(SemanticType::Char.name(), "char");
    assert_eq!(SemanticType::UserType(String::from("Foo")).name(), "Foo");
}

#[test]
fn executable_error_messages() {
    assert_eq!(ExecutableError::NoBuildPath.message(), "executable was not built before running");
    assert_eq!(ExecutableError::Io.message(), "failed to run executable");
    assert_eq!(ExecutableError::Dummy.message(), "you cannot run a dummy executable");
}
