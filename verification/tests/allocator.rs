//! The linear-scan register allocator on small straight-line blocks.

use claks::ir::{BasicBlock, Operation, SourceVal, VirtualReg};
use claks::synthesize::arch::arm::reg::{allocate, caller_saved_regs, RegisterGuard};

/// Constructs a basic block from a list of operations for use in tests.
fn make_bb(ops: Vec<Operation>) -> BasicBlock {
    BasicBlock { ops }
}

#[test]
fn allocate_empty_block_has_zero_stack_size() {
    let alloc = allocate(&make_bb(vec![]));
    assert_eq!(alloc.stack_size(), 0);
}

#[test]
fn allocate_single_vreg_uses_same_register() {
    // v0 is defined at op 0 and used at op 1; both uses should map to the
    // same physical register with no spill.
    let bb = make_bb(vec![
        Operation::Assign { src: SourceVal::Immediate(42), dest: VirtualReg(0) },
        Operation::Return { value: SourceVal::VReg(VirtualReg(0)) },
    ]);
    let alloc = allocate(&bb);
    assert_eq!(alloc.stack_size(), 0);
    let g0 = alloc.map(VirtualReg(0), 0);
    let g1 = alloc.map(VirtualReg(0), 1);
    assert!(matches!(g0, RegisterGuard::Ready(_)));
    assert!(matches!(g1, RegisterGuard::Ready(_)));
    assert_eq!(g0.inner_reg(), g1.inner_reg());
}

#[test]
fn allocate_simultaneously_live_vregs_get_distinct_registers() {
    // v0 and v1 are both live at the Add (op 2), so they must occupy
    // different physical registers.
    let bb = make_bb(vec![
        Operation::Assign { src: SourceVal::Immediate(1), dest: VirtualReg(0) },
        Operation::Assign { src: SourceVal::Immediate(2), dest: VirtualReg(1) },
        Operation::Add {
            a: SourceVal::VReg(VirtualReg(0)),
            b: SourceVal::VReg(VirtualReg(1)),
            dest: VirtualReg(2),
        },
        Operation::Return { value: SourceVal::VReg(VirtualReg(2)) },
    ]);
    let alloc = allocate(&bb);
    assert_eq!(alloc.stack_size(), 0);
    let g0 = alloc.map(VirtualReg(0), 2);
    let g1 = alloc.map(VirtualReg(1), 2);
    let g2 = alloc.map(VirtualReg(2), 2);
    assert!(matches!(g0, RegisterGuard::Ready(_)));
    assert!(matches!(g1, RegisterGuard::Ready(_)));
    assert!(matches!(g2, RegisterGuard::Ready(_)));
    assert_ne!(g0.inner_reg(), g1.inner_reg());
    assert_ne!(g0.inner_reg(), g2.inner_reg());
    assert_ne!(g1.inner_reg(), g2.inner_reg());
}

#[test]
fn allocate_uses_caller_saved_registers() {
    let bb = make_bb(vec![
        Operation::Assign { src: SourceVal::Immediate(5), dest: VirtualReg(0) },
        Operation::Return { value: SourceVal::VReg(VirtualReg(0)) },
    ]);
    let alloc = allocate(&bb);
    let reg = alloc.map(VirtualReg(0), 0).inner_reg();
    assert!(caller_saved_regs().contains(&reg));
}

#[test]
fn allocator_stack_save_none_for_non_call_ops() {
    let bb = make_bb(vec![
        Operation::Assign { src: SourceVal::Immediate(1), dest: VirtualReg(0) },
        Operation::Return { value: SourceVal::VReg(VirtualReg(0)) },
    ]);
    let alloc = allocate(&bb);
    assert!(alloc.stack_save(0).is_none());
    assert!(alloc.stack_save(1).is_none());
}

#[test]
fn allocator_stack_save_some_for_call_when_registers_are_live() {
    // v0 is assigned before a Call, so its register must be preserved.
    let bb = make_bb(vec![
        Operation::Assign { src: SourceVal::Immediate(1), dest: VirtualReg(0) },
        Operation::Call { function: String::from("foo"), dest: None },
        Operation::Return { value: SourceVal::VReg(VirtualReg(0)) },
    ]);
    let alloc = allocate(&bb);
    let saves = alloc.stack_save(1);
    assert!(saves.is_some());
    assert!(!saves.unwrap().is_empty());
}

#[test]
fn allocator_stack_save_none_for_call_when_no_registers_are_live() {
    // No vregs have been assigned before the Call, so nothing needs saving.
    let bb = make_bb(vec![Operation::Call { function: String::from("foo"), dest: None }]);
    let alloc = allocate(&bb);
    assert!(alloc.stack_save(0).is_none());
}

#[test]
fn allocate_spills_when_all_registers_are_taken() {
    // Seventeen vregs all live at the final sum force at least one value
    // out of the sixteen-register pool onto the stack.
    let mut ops: Vec<Operation> = Vec::new();
    for v in 0..17u32 {
        ops.push(Operation::Assign { src: SourceVal::Immediate(v as i64), dest: VirtualReg(v) });
    }
    // one operation mentioning all of them transitively: chain the adds
    let mut acc = 17u32;
    ops.push(Operation::Add {
        a: SourceVal::VReg(VirtualReg(0)),
        b: SourceVal::VReg(VirtualReg(1)),
        dest: VirtualReg(acc),
    });
    for v in 2..17u32 {
        let next = acc + 1;
        ops.push(Operation::Add {
            a: SourceVal::VReg(VirtualReg(acc)),
            b: SourceVal::VReg(VirtualReg(v)),
            dest: VirtualReg(next),
        });
        acc = next;
    }
    ops.push(Operation::Return { value: SourceVal::VReg(VirtualReg(acc)) });
    // every assigned vreg stays live until its use in the chain, so the
    // pool of sixteen runs out while lower-numbered vregs are still live
    let alloc = allocate(&make_bb(ops));
    assert!(alloc.stack_size() >= 1);
}

#[test]
fn allocate_reloads_after_call() {
    // v0 lives across the call, so it is saved at the call and its next
    // use must load it back from the stack.
    let bb = make_bb(vec![
        Operation::Assign { src: SourceVal::Immediate(7), dest: VirtualReg(0) },
        Operation::Call { function: String::from("foo"), dest: None },
        Operation::Return { value: SourceVal::VReg(VirtualReg(0)) },
    ]);
    let alloc = allocate(&bb);
    let saves = alloc.stack_save(1).unwrap().clone();
    assert_eq!(saves.len(), 1);
    let g = alloc.map(VirtualReg(0), 2);
    match g {
        RegisterGuard::Load(slot, _) => assert_eq!(slot, saves[0].1),
        other => panic!("expected a reload from the caller-save slot, got {:?}", other),
    }
}
