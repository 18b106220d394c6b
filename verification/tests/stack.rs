//! The stack-slot pool: allocation order and slot recycling.

use claks::synthesize::arch::arm::reg::Stack;

#[test]
fn stack_alloc_starts_at_zero() {
    let mut stack = Stack::default();
    assert_eq!(stack.stack_size, 0);
    let slot = stack.alloc_slot();
    assert_eq!(slot, 0);
    assert_eq!(stack.stack_size, 1);
}

#[test]
fn stack_alloc_increments_each_call() {
    let mut stack = Stack::default();
    assert_eq!(stack.alloc_slot(), 0);
    assert_eq!(stack.alloc_slot(), 1);
    assert_eq!(stack.alloc_slot(), 2);
    assert_eq!(stack.stack_size, 3);
}

#[test]
fn stack_free_recycles_slot() {
    let mut stack = Stack::default();
    let s0 = stack.alloc_slot();
    let _s1 = stack.alloc_slot();
    stack.free(s0);
    // stack_size does not shrink
    assert_eq!(stack.stack_size, 2);
    // next alloc reuses the freed slot
    let reused = stack.alloc_slot();
    assert_eq!(reused, s0);
    assert_eq!(stack.stack_size, 2);
}
