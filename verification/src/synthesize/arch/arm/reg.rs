//! Physical registers, register guards, the stack-slot pool, and the
//! linear-scan register allocator.

use vstd::prelude::*;

use crate::ir::lifetime::LifetimeMap;
use crate::ir::{live_dom, live_exact, lifetimes_wf, BasicBlock, Operation, VirtualReg};

verus! {

pub type Reg = Register;

/// All general-purpose registers + stack pointer on the ARM architecture.
#[derive(Debug, Clone, Copy, PartialEq, Eq, Structural, Hash)]
pub enum Register {
    X0,
    X1,
    X2,
    X3,
    X4,
    X5,
    X6,
    X7,
    X8,
    X9,
    X10,
    X11,
    X12,
    X13,
    X14,
    X15,
    X16,
    X17,
    X18,
    X19,
    X20,
    X21,
    X22,
    X23,
    X24,
    X25,
    X26,
    X27,
    X28,
    /// Frame pointer (X29).
    FP,
    /// Link register (X30).
    LR,
    /// Stack pointer (X31); not general purpose.
    SP,
}

impl Register {
    /// The architectural register number, 0 through 31.
    pub open spec fn index_spec(self) -> u32 {
        match self {
            Register::X0 => 0,
            Register::X1 => 1,
            Register::X2 => 2,
            Register::X3 => 3,
            Register::X4 => 4,
            Register::X5 => 5,
            Register::X6 => 6,
            Register::X7 => 7,
            Register::X8 => 8,
            Register::X9 => 9,
            Register::X10 => 10,
            Register::X11 => 11,
            Register::X12 => 12,
            Register::X13 => 13,
            Register::X14 => 14,
            Register::X15 => 15,
            Register::X16 => 16,
            Register::X17 => 17,
            Register::X18 => 18,
            Register::X19 => 19,
            Register::X20 => 20,
            Register::X21 => 21,
            Register::X22 => 22,
            Register::X23 => 23,
            Register::X24 => 24,
            Register::X25 => 25,
            Register::X26 => 26,
            Register::X27 => 27,
            Register::X28 => 28,
            Register::FP => 29,
            Register::LR => 30,
            Register::SP => 31,
        }
    }

    pub fn index(self) -> (r: u32)
        ensures
            r == self.index_spec(),
            r < 32,
    {
        match self {
            Register::X0 => 0,
            Register::X1 => 1,
            Register::X2 => 2,
            Register::X3 => 3,
            Register::X4 => 4,
            Register::X5 => 5,
            Register::X6 => 6,
            Register::X7 => 7,
            Register::X8 => 8,
            Register::X9 => 9,
            Register::X10 => 10,
            Register::X11 => 11,
            Register::X12 => 12,
            Register::X13 => 13,
            Register::X14 => 14,
            Register::X15 => 15,
            Register::X16 => 16,
            Register::X17 => 17,
            Register::X18 => 18,
            Register::X19 => 19,
            Register::X20 => 20,
            Register::X21 => 21,
            Register::X22 => 22,
            Register::X23 => 23,
            Register::X24 => 24,
            Register::X25 => 25,
            Register::X26 => 26,
            Register::X27 => 27,
            Register::X28 => 28,
            Register::FP => 29,
            Register::LR => 30,
            Register::SP => 31,
        }
    }

    /// The register with architectural number `n`.
    pub fn from_index(n: u32) -> (r: Register)
        requires
            n < 32,
        ensures
            r.index_spec() == n,
    {
        if n == 0 {
            Register::X0
        } else if n == 1 {
            Register::X1
        } else if n == 2 {
            Register::X2
        } else if n == 3 {
            Register::X3
        } else if n == 4 {
            Register::X4
        } else if n == 5 {
            Register::X5
        } else if n == 6 {
            Register::X6
        } else if n == 7 {
            Register::X7
        } else if n == 8 {
            Register::X8
        } else if n == 9 {
            Register::X9
        } else if n == 10 {
            Register::X10
        } else if n == 11 {
            Register::X11
        } else if n == 12 {
            Register::X12
        } else if n == 13 {
            Register::X13
        } else if n == 14 {
            Register::X14
        } else if n == 15 {
            Register::X15
        } else if n == 16 {
            Register::X16
        } else if n == 17 {
            Register::X17
        } else if n == 18 {
            Register::X18
        } else if n == 19 {
            Register::X19
        } else if n == 20 {
            Register::X20
        } else if n == 21 {
            Register::X21
        } else if n == 22 {
            Register::X22
        } else if n == 23 {
            Register::X23
        } else if n == 24 {
            Register::X24
        } else if n == 25 {
            Register::X25
        } else if n == 26 {
            Register::X26
        } else if n == 27 {
            Register::X27
        } else if n == 28 {
            Register::X28
        } else if n == 29 {
            Register::FP
        } else if n == 30 {
            Register::LR
        } else {
            Register::SP
        }
    }
}

/// The sixteen caller-saved registers the allocator hands out, in pool
/// order: the allocator takes from the back, so `X15` goes first.
pub fn caller_saved_regs() -> (r: Vec<Register>)
    ensures
        r@.len() == 16,
        forall|k: int| 0 <= k < 16 ==> (#[trigger] r@[k]).index_spec() == k,
{
    let mut v: Vec<Register> = Vec::new();
    v.push(Register::X0);
    v.push(Register::X1);
    v.push(Register::X2);
    v.push(Register::X3);
    v.push(Register::X4);
    v.push(Register::X5);
    v.push(Register::X6);
    v.push(Register::X7);
    v.push(Register::X8);
    v.push(Register::X9);
    v.push(Register::X10);
    v.push(Register::X11);
    v.push(Register::X12);
    v.push(Register::X13);
    v.push(Register::X14);
    v.push(Register::X15);
    v
}

/// Used in register allocation when mapping a virtual register to a
/// physical register. This protects a register if using the register for a
/// value requires loading that value from stack, saving the existing
/// register value to the stack, or both. Slots are indices of 8-byte stack
/// cells.
#[derive(Debug, Clone, Copy)]
pub enum RegisterGuard {
    Ready(Register),
    Load(u16, Register),
    Save(u16, Register),
    /// (save to, load from, reg)
    SaveAndLoad(u16, u16, Register),
}

impl RegisterGuard {
    /// The register that this guard protects.
    pub open spec fn inner_reg_spec(self) -> Register {
        match self {
            RegisterGuard::Ready(reg) => reg,
            RegisterGuard::Load(_, reg) => reg,
            RegisterGuard::Save(_, reg) => reg,
            RegisterGuard::SaveAndLoad(_, _, reg) => reg,
        }
    }

    /// The slot this guard loads the value from, if any.
    pub open spec fn load_slot(self) -> Option<u16> {
        match self {
            RegisterGuard::Load(slot, _) => Some(slot),
            RegisterGuard::SaveAndLoad(_, slot, _) => Some(slot),
            _ => None,
        }
    }

    /// The fresh slot this guard spills the register's old value to, if any.
    pub open spec fn save_slot(self) -> Option<u16> {
        match self {
            RegisterGuard::Save(slot, _) => Some(slot),
            RegisterGuard::SaveAndLoad(slot, _, _) => Some(slot),
            _ => None,
        }
    }

    /// Returns the register that this guard protects.
    ///
    /// Do not use this register for a value before materializing the guard:
    /// the value may still be on the stack, or the register may still hold
    /// another value that must be saved first.
    pub fn inner_reg(&self) -> (r: Register)
        ensures
            r == self.inner_reg_spec(),
    {
        match *self {
            RegisterGuard::Ready(reg) => reg,
            RegisterGuard::Load(_, reg) => reg,
            RegisterGuard::Save(_, reg) => reg,
            RegisterGuard::SaveAndLoad(_, _, reg) => reg,
        }
    }
}

/// Location of a virtual register at any given time.
#[derive(Debug, Clone, Copy)]
pub enum Location {
    Register(Register),
    Stack(u16),
}

/// The abstract state of a stack-slot pool: its high-water mark and its
/// free list.
#[verifier::ext_equal]
pub ghost struct StackModel {
    pub size: int,
    pub free: Seq<u16>,
}

/// One allocation step: reuse the most recently freed slot, or extend the
/// high-water mark by one.
pub open spec fn spec_alloc(m: StackModel) -> (StackModel, u16) {
    if m.free.len() == 0 {
        (StackModel { size: m.size + 1, free: m.free }, m.size as u16)
    } else {
        (StackModel { size: m.size, free: m.free.drop_last() }, m.free.last())
    }
}

/// One release step: push the slot onto the free list.
pub open spec fn spec_free(m: StackModel, slot: u16) -> StackModel {
    StackModel { size: m.size, free: m.free.push(slot) }
}

/// `k` allocation steps from `m`.
pub open spec fn spec_alloc_k(m: StackModel, k: nat) -> StackModel
    decreases k,
{
    if k == 0 {
        m
    } else {
        spec_alloc(spec_alloc_k(m, (k - 1) as nat)).0
    }
}

/// A grow-only pool of 8-byte stack slots with a free list. `stack_size`
/// is the high-water mark; it never shrinks.
pub struct Stack {
    pub stack_size: u16,
    pub free_slots: Vec<u16>,
}

impl View for Stack {
    type V = StackModel;

    open spec fn view(&self) -> StackModel {
        StackModel { size: self.stack_size as int, free: self.free_slots@ }
    }
}

impl Default for Stack {
    fn default() -> (r: Stack)
        ensures
            r@ == (StackModel { size: 0, free: Seq::<u16>::empty() }),
    {
        Stack { stack_size: 0, free_slots: Vec::new() }
    }
}

/// Free slots are pairwise distinct and all below the high-water mark.
pub open spec fn stack_wf(m: StackModel) -> bool {
    &&& 0 <= m.size <= u16::MAX
    &&& forall|k: int| 0 <= k < m.free.len() ==> (#[trigger] m.free[k]) < m.size
    &&& forall|k1: int, k2: int|
        #![trigger m.free[k1], m.free[k2]]
        0 <= k1 < k2 < m.free.len() ==> m.free[k1] != m.free[k2]
}

impl Stack {
    /// Takes the lowest-available reusable slot, or a fresh one.
    pub fn alloc_slot(&mut self) -> (slot: u16)
        requires
            stack_wf(old(self)@),
            old(self)@.size < u16::MAX,
        ensures
            (final(self)@, slot) == spec_alloc(old(self)@),
            stack_wf(final(self)@),
            slot < final(self)@.size,
            final(self)@.size >= old(self)@.size,
    {
        let r: u16 = match self.free_slots.pop() {
            Some(slot) => slot,
            None => {
                self.stack_size = self.stack_size + 1;
                self.stack_size - 1
            },
        };
        proof {
            if old(self)@.free.len() == 0 {
                assert(self@ =~= spec_alloc(old(self)@).0);
            } else {
                assert(self@.free =~= old(self)@.free.drop_last());
                assert(self@ =~= spec_alloc(old(self)@).0);
                assert forall|k: int| 0 <= k < self@.free.len() implies (#[trigger] self@.free[k])
                    < self@.size by {
                    assert(self@.free[k] == old(self)@.free[k]);
                }
                assert forall|k1: int, k2: int|
                    0 <= k1 < k2 < self@.free.len() implies self@.free[k1] != self@.free[k2] by {
                    assert(self@.free[k1] == old(self)@.free[k1]);
                    assert(self@.free[k2] == old(self)@.free[k2]);
                }
                assert(r == old(self)@.free[old(self)@.free.len() - 1]);
            }
        }
        r
    }

    /// Marks a slot reusable.
    ///
    /// The slot must have been handed out by `alloc` and not freed since:
    /// releasing a slot beyond the high-water mark or releasing one twice
    /// is a programmer error, which the precondition rules out.
    pub fn free(&mut self, slot: u16)
        requires
            stack_wf(old(self)@),
            slot < old(self)@.size,
            !old(self)@.free.contains(slot),
        ensures
            final(self)@ == spec_free(old(self)@, slot),
            stack_wf(final(self)@),
    {
        self.free_slots.push(slot);
        proof {
            assert(self@.free =~= old(self)@.free.push(slot));
            assert forall|k1: int, k2: int| 0 <= k1 < k2 < self@.free.len() implies self@.free[k1]
                != self@.free[k2] by {
                if k2 == self@.free.len() - 1 {
                    if self@.free[k1] == slot {
                        assert(old(self)@.free.contains(slot));
                    }
                }
            }
        }
    }
}

/// On a fresh pool, `k` allocations hand out exactly the slots `0` through
/// `k - 1`, in that order, and set the size to `k`.
pub proof fn lemma_fresh_allocs(k: nat)
    requires
        k <= u16::MAX,
    ensures
        spec_alloc_k(StackModel { size: 0, free: Seq::empty() }, k).size == k,
        spec_alloc_k(StackModel { size: 0, free: Seq::empty() }, k).free.len() == 0,
        forall|j: nat|
            j < k ==> spec_alloc(
                #[trigger] spec_alloc_k(StackModel { size: 0, free: Seq::empty() }, j),
            ).1 == j,
    decreases k,
{
    if k > 0 {
        lemma_fresh_allocs((k - 1) as nat);
    }
}

/// Freeing an allocated slot and then allocating yields the same slot and
/// returns the pool to its previous state: the size does not change.
pub proof fn lemma_free_then_alloc(m: StackModel, slot: u16)
    requires
        stack_wf(m),
        slot < m.size,
        !m.free.contains(slot),
    ensures
        spec_alloc(spec_free(m, slot)).1 == slot,
        spec_alloc(spec_free(m, slot)).0 == m,
        spec_alloc(spec_free(m, slot)).0.size == m.size,
{
    assert(spec_free(m, slot).free.drop_last() =~= m.free);
}

/// A recorded guard: which virtual register, at which instruction index,
/// got which guard.
pub type GuardEntry = (VirtualReg, usize, RegisterGuard);

/// A caller-save record: the registers live at a call and the slots their
/// values are saved to, keyed by the call's instruction index.
pub type SaveEntry = (usize, Vec<(Register, u16)>);

/// True when the guard sequence holds a guard for register `v` at
/// instruction `i`.
pub open spec fn seq_has_guard(g: Seq<GuardEntry>, v: u32, i: int) -> bool {
    exists|idx: int| 0 <= idx < g.len() && (#[trigger] g[idx]).0.0 == v && g[idx].1 == i
}

/// Every slot the guard mentions lies below `size`.
pub open spec fn guard_slots_lt(gd: RegisterGuard, size: int) -> bool {
    &&& match gd.load_slot() {
        Some(s) => s < size,
        None => true,
    }
    &&& match gd.save_slot() {
        Some(s) => s < size,
        None => true,
    }
}

/// Every recorded guard's slots lie below `size`.
pub open spec fn guards_slots_ok(g: Seq<GuardEntry>, size: int) -> bool {
    forall|idx: int| 0 <= idx < g.len() ==> guard_slots_lt((#[trigger] g[idx]).2, size)
}

/// Every caller-save slot lies below `size`.
pub open spec fn saves_slots_ok(saves: Seq<SaveEntry>, size: int) -> bool {
    forall|q: int, t: int|
        #![trigger saves[q].1@[t]]
        0 <= q < saves.len() && 0 <= t < saves[q].1@.len() ==> saves[q].1@[t].1 < size
}

/// Guards recorded so far belong to instructions before `upto` and only to
/// registers those instructions mention.
pub open spec fn guards_sound(g: Seq<GuardEntry>, ops: Seq<Operation>, upto: int) -> bool {
    forall|idx: int|
        0 <= idx < g.len() ==> 0 <= (#[trigger] g[idx]).1 < upto && ops[g[idx].1 as int].mentions(
            g[idx].0.0,
        )
}

/// No two recorded guards share a register and an instruction: every live
/// reference has exactly one guard.
pub open spec fn guards_unique(g: Seq<GuardEntry>) -> bool {
    forall|i1: int, i2: int|
        #![trigger g[i1], g[i2]]
        0 <= i1 < i2 < g.len() ==> !(g[i1].0.0 == g[i2].0.0 && g[i1].1 == g[i2].1)
}

/// Every register mentioned by an instruction before `upto` has a guard.
pub open spec fn guards_complete(g: Seq<GuardEntry>, ops: Seq<Operation>, upto: int) -> bool {
    forall|v: u32, j: int|
        0 <= j < upto && #[trigger] ops[j].mentions(v) ==> seq_has_guard(g, v, j)
}

/// Every guard that loads from a slot comes after a save of that slot: an
/// earlier spill guard, or a caller-save record of an instruction at or
/// before the guard's own.
pub open spec fn loads_have_prior_saves(g: Seq<GuardEntry>, saves: Seq<SaveEntry>) -> bool {
    forall|idx: int|
        0 <= idx < g.len() ==> match (#[trigger] g[idx]).2.load_slot() {
            Some(s) => (exists|m: int|
                0 <= m < idx && (#[trigger] g[m]).2.save_slot() == Some(s)) || (exists|
            q: int,
            t: int,
            |
                #![trigger saves[q].1@[t]]
                0 <= q < saves.len() && 0 <= t < saves[q].1@.len() && saves[q].0 <= g[idx].1
                    && saves[q].1@[t].1 == s),
            None => true,
        }
}

/// Caller-save records up to instruction `upto`: each key is a `Call`
/// instruction with at least one saved register, and the keys grow
/// strictly.
pub open spec fn saves_wf(saves: Seq<SaveEntry>, ops: Seq<Operation>, upto: int) -> bool {
    &&& forall|q: int|
        0 <= q < saves.len() ==> 0 <= (#[trigger] saves[q]).0 < upto && ops[saves[q].0 as int]
            is Call && saves[q].1@.len() >= 1
    &&& forall|q1: int, q2: int|
        #![trigger saves[q1], saves[q2]]
        0 <= q1 < q2 < saves.len() ==> saves[q1].0 < saves[q2].0
}

/// One where a stack-resident location counts.
pub open spec fn stack_c(l: Option<Location>) -> int {
    match l {
        Some(Location::Stack(_)) => 1,
        _ => 0,
    }
}

/// How many registers of the table currently live on the stack.
pub open spec fn n_stack(s: Seq<Option<Location>>) -> int
    decreases s.len(),
{
    if s.len() == 0 {
        0
    } else {
        n_stack(s.drop_last()) + stack_c(s.last())
    }
}

pub proof fn lemma_n_stack_bounds(s: Seq<Option<Location>>)
    ensures
        0 <= n_stack(s) <= s.len(),
    decreases s.len(),
{
    if s.len() > 0 {
        lemma_n_stack_bounds(s.drop_last());
    }
}

pub proof fn lemma_n_stack_update(s: Seq<Option<Location>>, k: int, x: Option<Location>)
    requires
        0 <= k < s.len(),
    ensures
        n_stack(s.update(k, x)) == n_stack(s) - stack_c(s[k]) + stack_c(x),
    decreases s.len(),
{
    let su = s.update(k, x);
    if k == s.len() - 1 {
        assert(su.drop_last() =~= s.drop_last());
    } else {
        assert(su.drop_last() =~= s.drop_last().update(k, x));
        lemma_n_stack_update(s.drop_last(), k, x);
        assert(su.last() == s.last());
    }
}

pub proof fn lemma_n_stack_push(s: Seq<Option<Location>>, x: Option<Location>)
    ensures
        n_stack(s.push(x)) == n_stack(s) + stack_c(x),
{
    assert(s.push(x).drop_last() =~= s);
}

/// The slot-pool side of the allocator state is consistent: the free list
/// is sound, every stack-resident register owns a distinct live slot that
/// is not free, and the high-water mark counts exactly the free and the
/// owned slots.
pub open spec fn pool_inv(loc: Seq<Option<Location>>, m: StackModel) -> bool {
    &&& stack_wf(m)
    &&& m.size == m.free.len() + n_stack(loc)
    &&& m.size <= loc.len() + 1
    &&& forall|k: int|
        0 <= k < loc.len() ==> match #[trigger] loc[k] {
            Some(Location::Stack(s)) => s < m.size && !m.free.contains(s),
            Some(Location::Register(r)) => r.index_spec() < 16,
            None => true,
        }
    &&& forall|k1: int, k2: int|
        #![trigger loc[k1], loc[k2]]
        0 <= k1 < k2 < loc.len() ==> match (loc[k1], loc[k2]) {
            (Some(Location::Stack(s1)), Some(Location::Stack(s2))) => s1 != s2,
            _ => true,
        }
}

/// Every stack-resident register's slot was recorded as saved: by a spill
/// guard or by a caller-save record.
pub open spec fn prov_inv(
    loc: Seq<Option<Location>>,
    g: Seq<GuardEntry>,
    saves: Seq<SaveEntry>,
) -> bool {
    forall|k: int|
        0 <= k < loc.len() ==> match #[trigger] loc[k] {
            Some(Location::Stack(s)) => slot_saved(g, saves, s),
            _ => true,
        }
}

/// The slot appears as the save slot of some guard or in some caller-save
/// record.
pub open spec fn slot_saved(g: Seq<GuardEntry>, saves: Seq<SaveEntry>, s: u16) -> bool {
    (exists|m: int| 0 <= m < g.len() && (#[trigger] g[m]).2.save_slot() == Some(s)) || (exists|
    q: int,
    t: int,
    |
        #![trigger saves[q].1@[t]]
        0 <= q < saves.len() && 0 <= t < saves[q].1@.len() && saves[q].1@[t].1 == s)
}

/// The register at table index `k2` is dead at instruction `i`: no
/// interval of its lifetime extends past `i`.
pub open spec fn dead_at(lts: LifetimeMap, k2: int, i: int) -> bool {
    forall|jj: int| 0 <= jj < lts@[k2].1@.len() ==> (#[trigger] lts@[k2].1@[jj]).end <= i + 1
}

/// Entries awaiting retirement still hold registers (or were already
/// cleared) and are dead at instruction `i`.
pub open spec fn retire_ok(
    to_retire: Seq<usize>,
    loc: Seq<Option<Location>>,
    lts: LifetimeMap,
    i: int,
) -> bool {
    forall|t: int|
        0 <= t < to_retire.len() ==> {
            &&& (#[trigger] to_retire[t]) < loc.len()
            &&& (loc[to_retire[t] as int] matches Some(Location::Register(_)) || loc[to_retire[
                t] as int] is None)
            &&& dead_at(lts, to_retire[t] as int, i)
        }
}

/// The allocation map a basic block's register allocation produces: for
/// every live `(register, instruction)` pair a guard, the number of 8-byte
/// stack slots the function needs, and for each `Call` the caller-save
/// stores to insert before it.
pub struct Allocator {
    regmap: Vec<GuardEntry>,
    stack_size: u16,
    stack_saves: Vec<SaveEntry>,
}

impl Default for Allocator {
    fn default() -> (r: Allocator)
        ensures
            r.guards().len() == 0,
            r.saves().len() == 0,
            r.stack_size_spec() == 0,
    {
        Allocator { regmap: Vec::new(), stack_size: 0, stack_saves: Vec::new() }
    }
}

impl Allocator {
    /// The recorded guards, in allocation order.
    pub closed spec fn guards(self) -> Seq<GuardEntry> {
        self.regmap@
    }

    /// The caller-save records, in instruction order.
    pub closed spec fn saves(self) -> Seq<SaveEntry> {
        self.stack_saves@
    }

    pub closed spec fn stack_size_spec(self) -> u16 {
        self.stack_size
    }

    /// True when a guard was recorded for register `v` at instruction `i`.
    pub open spec fn has_guard(self, v: u32, i: int) -> bool {
        seq_has_guard(self.guards(), v, i)
    }

    /// The index of the guard for register `v` at instruction `i`.
    pub open spec fn guard_idx(self, v: u32, i: int) -> int {
        choose|idx: int|
            0 <= idx < self.guards().len() && (#[trigger] self.guards()[idx]).0.0 == v
                && self.guards()[idx].1 == i
    }

    /// The guard recorded for register `v` at instruction `i`.
    pub open spec fn guard_at(self, v: u32, i: int) -> RegisterGuard {
        self.guards()[self.guard_idx(v, i)].2
    }

    /// When guards are unique, any matching index is the guard's index.
    pub proof fn lemma_guard_idx(self, idx: int, v: u32, i: int)
        requires
            guards_unique(self.guards()),
            0 <= idx < self.guards().len(),
            self.guards()[idx].0.0 == v,
            self.guards()[idx].1 == i,
        ensures
            self.guard_idx(v, i) == idx,
            self.has_guard(v, i),
            self.guard_at(v, i) == self.guards()[idx].2,
    {
        assert(self.has_guard(v, i));
        let j = self.guard_idx(v, i);
        if j < idx {
            assert(!(self.guards()[j].0.0 == self.guards()[idx].0.0 && self.guards()[j].1
                == self.guards()[idx].1));
        } else if j > idx {
            assert(!(self.guards()[idx].0.0 == self.guards()[j].0.0 && self.guards()[idx].1
                == self.guards()[j].1));
        }
    }

    /// The guard for this register at this instruction.
    ///
    /// The register must be live there: asking for an unmapped pair is a
    /// programmer error, which the precondition rules out.
    pub fn map(&self, vreg: VirtualReg, instr_index: usize) -> (g: RegisterGuard)
        requires
            guards_unique(self.guards()),
            self.has_guard(vreg.0, instr_index as int),
        ensures
            g == self.guard_at(vreg.0, instr_index as int),
    {
        let n = self.regmap.len();
        let mut idx: usize = 0;
        while idx < n
            invariant
                n == self.regmap@.len(),
                0 <= idx <= n,
                guards_unique(self.guards()),
                self.has_guard(vreg.0, instr_index as int),
                forall|m: int|
                    0 <= m < idx ==> !((#[trigger] self.regmap@[m]).0.0 == vreg.0
                        && self.regmap@[m].1 == instr_index),
            decreases n - idx,
        {
            let e = &self.regmap[idx];
            if e.0.0 == vreg.0 && e.1 == instr_index {
                proof {
                    self.lemma_guard_idx(idx as int, vreg.0, instr_index as int);
                }
                return e.2;
            }
            idx += 1;
        }
        // unreachable: the precondition says the pair is mapped
        proof {
            assert(false);
        }
        RegisterGuard::Ready(Register::X0)
    }

    /// The number of 8-byte stack slots this function needs.
    pub fn stack_size(&self) -> (r: u16)
        ensures
            r == self.stack_size_spec(),
    {
        self.stack_size
    }

    /// The caller-save stores to insert just before instruction
    /// `instr_index`, if it is a call with live registers.
    pub fn stack_save(&self, instr_index: usize) -> (r: Option<&Vec<(Register, u16)>>)
        ensures
            match r {
                Some(saves) => exists|q: int|
                    0 <= q < self.saves().len() && (#[trigger] self.saves()[q]).0 == instr_index
                        && self.saves()[q].1 == *saves,
                None => forall|q: int|
                    0 <= q < self.saves().len() ==> (#[trigger] self.saves()[q]).0 != instr_index,
            },
    {
        let n = self.stack_saves.len();
        let mut q: usize = 0;
        while q < n
            invariant
                n == self.stack_saves@.len(),
                0 <= q <= n,
                forall|m: int|
                    0 <= m < q ==> (#[trigger] self.stack_saves@[m]).0 != instr_index,
            decreases n - q,
        {
            let e = &self.stack_saves[q];
            if e.0 == instr_index {
                let r = &self.stack_saves[q].1;
                proof {
                    assert(self.saves()[q as int].0 == instr_index && self.saves()[q as int].1
                        == *r);
                }
                return Some(r);
            }
            q += 1;
        }
        None
    }
}

/// The whole mutable state of a running allocation: the current home of
/// each register (indexed like the lifetime registry), the pool of unused
/// physical registers, the slot pool, and the two outputs being built.
struct AllocState {
    loc: Vec<Option<Location>>,
    free_regs: Vec<Register>,
    stack: Stack,
    regmap: Vec<GuardEntry>,
    stack_saves: Vec<SaveEntry>,
}

impl AllocState {
    /// The parts of the state invariant that hold at every step.
    spec fn inv(self, nv: int) -> bool {
        &&& self.loc@.len() == nv
        &&& pool_inv(self.loc@, self.stack@)
        &&& forall|k: int|
            0 <= k < self.free_regs@.len() ==> (#[trigger] self.free_regs@[k]).index_spec() < 16
        &&& guards_slots_ok(self.regmap@, self.stack@.size)
        &&& saves_slots_ok(self.stack_saves@, self.stack@.size)
        &&& prov_inv(self.loc@, self.regmap@, self.stack_saves@)
        &&& loads_have_prior_saves(self.regmap@, self.stack_saves@)
    }
}

/// Mid-instruction shape of the guard list: the guards of earlier
/// instructions unchanged, plus one guard for each register of the first
/// `k` registry entries that is live at instruction `i`, in ascending id
/// order.
spec fn mid_guards(
    g: Seq<GuardEntry>,
    g0: Seq<GuardEntry>,
    lts: LifetimeMap,
    ops: Seq<Operation>,
    i: int,
    k: int,
) -> bool {
    &&& g.len() >= g0.len()
    &&& forall|idx: int| 0 <= idx < g0.len() ==> #[trigger] g[idx] == g0[idx]
    &&& forall|idx: int|
        g0.len() <= idx < g.len() ==> (#[trigger] g[idx]).1 == i && ops[i].mentions(g[idx].0.0)
    &&& forall|i1: int, i2: int|
        #![trigger g[i1], g[i2]]
        g0.len() <= i1 < i2 < g.len() ==> g[i1].0.0 < g[i2].0.0
    &&& forall|kp: int|
        0 <= kp < k && (#[trigger] lts@[kp]).1.covers(i) ==> seq_has_guard(g, lts@[kp].0.0, i)
    &&& forall|idx: int|
        #![trigger g[idx]]
        g0.len() <= idx < g.len() ==> exists|kp: int|
            0 <= kp < k && (#[trigger] lts@[kp]).0.0 == g[idx].0.0
}

/// Looks for the first register holder that is dead at instruction `i`.
fn find_dead(loc: &Vec<Option<Location>>, lts: &LifetimeMap, i: usize) -> (r: Option<
    (usize, Register),
>)
    requires
        loc@.len() == lts@.len(),
        forall|k: int| 0 <= k < lts@.len() ==> (#[trigger] lts@[k]).1@.len() > 0,
        i < usize::MAX,
    ensures
        match r {
            Some(pair) => {
                &&& pair.0 < loc@.len()
                &&& loc@[pair.0 as int] == Some(Location::Register(pair.1))
                &&& dead_at(*lts, pair.0 as int, i as int)
            },
            None => forall|k2: int|
                0 <= k2 < loc@.len() ==> !((#[trigger] loc@[k2]) matches Some(Location::Register(_))
                    && dead_at(*lts, k2, i as int)),
        },
{
    let n = loc.len();
    let mut k2: usize = 0;
    while k2 < n
        invariant
            n == loc@.len(),
            loc@.len() == lts@.len(),
            forall|k: int| 0 <= k < lts@.len() ==> (#[trigger] lts@[k]).1@.len() > 0,
            i < usize::MAX,
            0 <= k2 <= n,
            forall|m: int|
                0 <= m < k2 ==> !((#[trigger] loc@[m]) matches Some(Location::Register(_))
                    && dead_at(*lts, m, i as int)),
        decreases n - k2,
    {
        match loc[k2] {
            Some(Location::Register(r)) => {
                let e = match lts.lifetime_at(k2).end() {
                    Some(e) => e,
                    None => {
                        // unreachable: every stored lifetime is non-empty
                        proof {
                            assert(false);
                        }
                        0
                    },
                };
                if e <= i + 1 {
                    proof {
                        assert(dead_at(*lts, k2 as int, i as int));
                    }
                    return Some((k2, r));
                }
                proof {
                    assert(!dead_at(*lts, k2 as int, i as int)) by {
                        let lt = lts@[k2 as int].1;
                        assert(exists|kk: int| 0 <= kk < lt@.len() && (#[trigger] lt@[kk]).end == e);
                    }
                }
            },
            _ => (),
        }
        k2 += 1;
    }
    None
}

/// Picks the register holder whose next use lies farthest in the future
/// (never, counting as infinitely far); ties go to the lowest id, which
/// comes first in the registry.
fn find_farthest(loc: &Vec<Option<Location>>, lts: &LifetimeMap, i: usize) -> (r: Option<
    (usize, Register),
>)
    requires
        loc@.len() == lts@.len(),
    ensures
        match r {
            Some(pair) => {
                &&& pair.0 < loc@.len()
                &&& loc@[pair.0 as int] == Some(Location::Register(pair.1))
            },
            None => forall|k2: int|
                0 <= k2 < loc@.len() ==> !((#[trigger] loc@[k2]) matches Some(
                    Location::Register(_),
                )),
        },
{
    let n = loc.len();
    let mut best: Option<(usize, Register)> = None;
    let mut best_next: usize = 0;
    let mut k2: usize = 0;
    while k2 < n
        invariant
            n == loc@.len(),
            loc@.len() == lts@.len(),
            0 <= k2 <= n,
            match best {
                Some(pair) => pair.0 < loc@.len() && loc@[pair.0 as int] == Some(
                    Location::Register(pair.1),
                ),
                None => forall|m: int|
                    0 <= m < k2 ==> !((#[trigger] loc@[m]) matches Some(Location::Register(_))),
            },
        decreases n - k2,
    {
        match loc[k2] {
            Some(Location::Register(r)) => {
                let next = match lts.lifetime_at(k2).next_use_after(i) {
                    Some(s) => s,
                    None => usize::MAX,
                };
                match best {
                    None => {
                        best = Some((k2, r));
                        best_next = next;
                    },
                    Some(_) => {
                        if next > best_next {
                            best = Some((k2, r));
                            best_next = next;
                        }
                    },
                }
            },
            _ => (),
        }
        k2 += 1;
    }
    best
}

impl AllocState {
    /// Saves every register-resident value to a fresh stack slot ahead of
    /// the call at instruction `i`, records the saves, and refills the
    /// physical-register pool.
    #[verifier::rlimit(100)]
    #[verifier::spinoff_prover]
    fn spill_for_call(&mut self, i: usize, Ghost(ops): Ghost<Seq<Operation>>, Ghost(nv): Ghost<int>)
        requires
            old(self).inv(nv),
            nv <= 510,
            (i as int) < ops.len(),
            ops[i as int] is Call,
            saves_wf(old(self).stack_saves@, ops, i as int),
        ensures
            final(self).inv(nv),
            final(self).regmap == old(self).regmap,
            saves_wf(final(self).stack_saves@, ops, i + 1),
            final(self).stack@.size >= old(self).stack@.size,
            forall|q: int|
                0 <= q < final(self).stack_saves@.len()
                    ==> (#[trigger] final(self).stack_saves@[q]).1@.len() <= nv || (exists|q2: int|
                    0 <= q2 < old(self).stack_saves@.len() && old(self).stack_saves@[q2]
                        == final(self).stack_saves@[q]),
    {
        let n = self.loc.len();
        let mut saves: Vec<(Register, u16)> = Vec::new();
        let mut k: usize = 0;
        while k < n
            invariant
                n == self.loc@.len(),
                self.loc@.len() == nv,
                nv <= 510,
                0 <= k <= n,
                pool_inv(self.loc@, self.stack@),
                self.stack@.size >= old(self).stack@.size,
                self.regmap == old(self).regmap,
                self.stack_saves == old(self).stack_saves,
                self.free_regs == old(self).free_regs,
                forall|kk: int|
                    0 <= kk < self.free_regs@.len() ==> (#[trigger] self.free_regs@[kk]).index_spec()
                        < 16,
                guards_slots_ok(self.regmap@, self.stack@.size),
                saves_slots_ok(self.stack_saves@, self.stack@.size),
                loads_have_prior_saves(self.regmap@, self.stack_saves@),
                forall|t: int| 0 <= t < saves@.len() ==> (#[trigger] saves@[t]).1 < self.stack@.size,
                saves@.len() <= k,
                // every stack-resident slot was saved before, or in this list
                forall|kk: int|
                    0 <= kk < nv ==> match #[trigger] self.loc@[kk] {
                        Some(Location::Stack(s)) => slot_saved(self.regmap@, self.stack_saves@, s)
                            || (exists|t: int|
                            0 <= t < saves@.len() && (#[trigger] saves@[t]).1 == s),
                        _ => true,
                    },
            decreases n - k,
        {
            match self.loc[k] {
                Some(Location::Register(r)) => {
                    proof {
                        lemma_n_stack_bounds(self.loc@);
                    }
                    let s = self.stack.alloc_slot();
                    let ghost mid_loc = self.loc@;
                    let ghost presaves = saves@;
                    saves.push((r, s));
                    self.loc[k] = Some(Location::Stack(s));
                    proof {
                        lemma_n_stack_update(mid_loc, k as int, Some(Location::Stack(s)));
                        assert(saves@[saves@.len() - 1].1 == s);
                        assert forall|kk: int| 0 <= kk < nv implies match #[trigger] self.loc@[kk] {
                            Some(Location::Stack(s2)) => slot_saved(
                                self.regmap@,
                                self.stack_saves@,
                                s2,
                            ) || (exists|t: int|
                                0 <= t < saves@.len() && (#[trigger] saves@[t]).1 == s2),
                            _ => true,
                        } by {
                            if kk == k {
                                assert(saves@[saves@.len() - 1].1 == s);
                            } else {
                                assert(self.loc@[kk] == mid_loc[kk]);
                                match mid_loc[kk] {
                                    Some(Location::Stack(s2)) => {
                                        if exists|t: int|
                                            0 <= t < presaves.len() && (#[trigger] presaves[t]).1
                                                == s2 {
                                            let t = choose|t: int|
                                                0 <= t < presaves.len() && (
                                                #[trigger] presaves[t]).1 == s2;
                                            assert(saves@[t].1 == s2);
                                        }
                                    },
                                    _ => {},
                                }
                            }
                        }
                        assert forall|kk: int| 0 <= kk < nv implies match #[trigger] self.loc@[kk] {
                            Some(Location::Stack(s2)) => s2 < self.stack@.size
                                && !self.stack@.free.contains(s2),
                            Some(Location::Register(r2)) => r2.index_spec() < 16,
                            None => true,
                        } by {
                            if kk != k {
                                assert(self.loc@[kk] == mid_loc[kk]);
                            }
                        }
                    }
                },
                _ => (),
            }
            k += 1;
        }
        let got_any = saves.len() > 0;
        let ghost gsaves = saves@;
        let ghost oldsv = self.stack_saves@;
        let ghost g = self.regmap@;
        if got_any {
            self.stack_saves.push((i, saves));
            self.free_regs = caller_saved_regs();
            proof {
                let ns = self.stack_saves@;
                let last = ns.len() - 1;
                assert(ns[last].0 == i && ns[last].1@ == gsaves);
                assert forall|q: int|
                    0 <= q < ns.len() implies 0 <= (#[trigger] ns[q]).0 < i + 1 && ops[ns[
                q].0 as int] is Call && ns[q].1@.len() >= 1 by {
                    if q < last {
                        assert(ns[q] == oldsv[q]);
                    }
                }
                assert forall|q1: int, q2: int|
                    #![trigger ns[q1], ns[q2]]
                    0 <= q1 < q2 < ns.len() implies ns[q1].0 < ns[q2].0 by {
                    assert(ns[q1] == oldsv[q1]);
                    if q2 < last {
                        assert(ns[q2] == oldsv[q2]);
                    }
                }
                assert forall|q: int, t: int|
                    #![trigger ns[q].1@[t]]
                    0 <= q < ns.len() && 0 <= t < ns[q].1@.len() implies ns[q].1@[t].1
                    < self.stack@.size by {
                    if q < last {
                        assert(ns[q] == oldsv[q]);
                    }
                }
                assert forall|kk: int| 0 <= kk < nv implies match #[trigger] self.loc@[kk] {
                    Some(Location::Stack(s2)) => slot_saved(g, ns, s2),
                    _ => true,
                } by {
                    match self.loc@[kk] {
                        Some(Location::Stack(s2)) => {
                            if exists|t: int|
                                0 <= t < gsaves.len() && (#[trigger] gsaves[t]).1 == s2 {
                                let t = choose|t: int|
                                    0 <= t < gsaves.len() && (#[trigger] gsaves[t]).1 == s2;
                                assert(ns[last].1@[t].1 == s2);
                                assert(slot_saved(g, ns, s2));
                            } else {
                                assert(slot_saved(g, oldsv, s2));
                                if !(exists|m: int|
                                    0 <= m < g.len() && (#[trigger] g[m]).2.save_slot() == Some(
                                        s2,
                                    )) {
                                    let (q, t) = choose|q: int, t: int|
                                        #![trigger oldsv[q].1@[t]]
                                        0 <= q < oldsv.len() && 0 <= t < oldsv[q].1@.len()
                                            && oldsv[q].1@[t].1 == s2;
                                    assert(ns[q].1@[t].1 == s2);
                                    assert(slot_saved(g, ns, s2));
                                }
                            }
                        },
                        _ => {},
                    }
                }
                assert forall|idx: int|
                    0 <= idx < g.len() implies match (#[trigger] g[idx]).2.load_slot() {
                    Some(s2) => (exists|m: int|
                        0 <= m < idx && (#[trigger] g[m]).2.save_slot() == Some(s2)) || (exists|
                    q: int,
                    t: int,
                    |
                        #![trigger ns[q].1@[t]]
                        0 <= q < ns.len() && 0 <= t < ns[q].1@.len() && ns[q].0 <= g[idx].1 && ns[
                        q].1@[t].1 == s2),
                    None => true,
                } by {
                    match g[idx].2.load_slot() {
                        Some(s2) => {
                            if !(exists|m: int|
                                0 <= m < idx && (#[trigger] g[m]).2.save_slot() == Some(s2)) {
                                let (q, t) = choose|q: int, t: int|
                                    #![trigger oldsv[q].1@[t]]
                                    0 <= q < oldsv.len() && 0 <= t < oldsv[q].1@.len() && oldsv[
                                        q].0 <= g[idx].1 && oldsv[q].1@[t].1 == s2;
                                assert(ns[q].1@[t].1 == s2 && ns[q].0 <= g[idx].1);
                            }
                        },
                        None => {},
                    }
                }
            }
        } else {
            proof {
                assert forall|kk: int| 0 <= kk < nv implies match #[trigger] self.loc@[kk] {
                    Some(Location::Stack(s2)) => slot_saved(g, oldsv, s2),
                    _ => true,
                } by {
                    match self.loc@[kk] {
                        Some(Location::Stack(s2)) => {
                            assert(gsaves.len() == 0);
                        },
                        _ => {},
                    }
                }
            }
        }
    }

    /// Clears the table entries of registers that were reclaimed dead
    /// during this instruction.
    #[verifier::spinoff_prover]
    fn retire(&mut self, to_retire: &Vec<usize>, Ghost(nv): Ghost<int>)
        requires
            old(self).inv(nv),
            forall|t: int|
                0 <= t < to_retire@.len() ==> (#[trigger] to_retire@[t]) < nv && (old(self).loc@[
                    to_retire@[t] as int] matches Some(Location::Register(_)) || old(self).loc@[
                    to_retire@[t] as int] is None),
        ensures
            final(self).inv(nv),
            final(self).regmap == old(self).regmap,
            final(self).stack_saves == old(self).stack_saves,
            final(self).stack == old(self).stack,
            final(self).free_regs == old(self).free_regs,
            to_retire@.len() == 0 ==> final(self).loc == old(self).loc,
    {
        let n = to_retire.len();
        let mut t: usize = 0;
        while t < n
            invariant
                n == to_retire@.len(),
                self.inv(nv),
                self.regmap == old(self).regmap,
                self.stack_saves == old(self).stack_saves,
                self.stack == old(self).stack,
                self.free_regs == old(self).free_regs,
                0 <= t <= n,
                n == 0 ==> self.loc == old(self).loc,
                forall|tt: int|
                    0 <= tt < n ==> (#[trigger] to_retire@[tt]) < nv && (self.loc@[to_retire@[
                        tt] as int] matches Some(Location::Register(_)) || self.loc@[to_retire@[
                        tt] as int] is None),
            decreases n - t,
        {
            let k2 = to_retire[t];
            let ghost mid_loc = self.loc@;
            self.loc[k2] = None;
            proof {
                lemma_n_stack_update(mid_loc, k2 as int, None);
                assert forall|kk: int| 0 <= kk < nv implies match #[trigger] self.loc@[kk] {
                    Some(Location::Stack(s2)) => s2 < self.stack@.size && !self.stack@.free.contains(
                        s2,
                    ) && slot_saved(self.regmap@, self.stack_saves@, s2),
                    Some(Location::Register(r2)) => r2.index_spec() < 16,
                    None => true,
                } by {
                    if kk != k2 {
                        assert(self.loc@[kk] == mid_loc[kk]);
                    }
                }
            }
            t += 1;
        }
    }
}

impl AllocState {
    /// Finds a physical register for the table entry `k`, which currently
    /// holds no register: from the free pool, by reclaiming a dead
    /// register, or by spilling the holder whose next use is farthest.
    /// Returns the guard describing the stack traffic the choice needs.
    #[verifier::rlimit(100)]
    #[verifier::spinoff_prover]
    fn acquire(
        &mut self,
        lts: &LifetimeMap,
        to_retire: &mut Vec<usize>,
        k: usize,
        i: usize,
        Ghost(nv): Ghost<int>,
        Ghost(v): Ghost<VirtualReg>,
        Ghost(ops): Ghost<Seq<Operation>>,
    ) -> (gd: RegisterGuard)
        requires
            old(self).inv(nv),
            nv == lts@.len(),
            nv <= 510,
            k < nv,
            forall|kk: int| 0 <= kk < lts@.len() ==> (#[trigger] lts@[kk]).1@.len() > 0,
            !(old(self).loc@[k as int] matches Some(Location::Register(_))),
            retire_ok(old(to_retire)@, old(self).loc@, *lts, i as int),
            i < usize::MAX,
            simple_block(ops) ==> pool16(old(self).loc@, old(self).free_regs@) && nv <= 16,
        ensures
            pool_inv(
                final(self).loc@.update(
                    k as int,
                    Some(Location::Register(gd.inner_reg_spec())),
                ),
                final(self).stack@,
            ),
            prov_inv(
                final(self).loc@.update(
                    k as int,
                    Some(Location::Register(gd.inner_reg_spec())),
                ),
                final(self).regmap@.push((v, i, gd)),
                final(self).stack_saves@,
            ),
            guard_slots_lt(gd, final(self).stack@.size as int),
            gd.inner_reg_spec().index_spec() < 16,
            match gd.load_slot() {
                Some(s) => slot_saved(final(self).regmap@, final(self).stack_saves@, s),
                None => true,
            },
            final(self).regmap == old(self).regmap,
            final(self).stack_saves == old(self).stack_saves,
            final(self).stack@.size >= old(self).stack@.size,
            final(self).loc@.len() == nv,
            forall|kk: int|
                0 <= kk < final(self).free_regs@.len()
                    ==> (#[trigger] final(self).free_regs@[kk]).index_spec() < 16,
            retire_ok(final(to_retire)@, final(self).loc@, *lts, i as int),
            retire_ok(
                final(to_retire)@,
                final(self).loc@.update(
                    k as int,
                    Some(Location::Register(gd.inner_reg_spec())),
                ),
                *lts,
                i as int,
            ),
            simple_block(ops) ==> {
                &&& old(self).free_regs@.len() > 0
                &&& gd == RegisterGuard::Ready(old(self).free_regs@.last())
                &&& final(self).free_regs@ == old(self).free_regs@.drop_last()
                &&& final(self).loc == old(self).loc
                &&& final(self).stack == old(self).stack
                &&& final(to_retire)@ == old(to_retire)@
            },
    {
        let ghost loc0 = self.loc@;
        let spilled: Option<u16> = match self.loc[k] {
            Some(Location::Stack(s)) => Some(s),
            _ => None,
        };
        let gd: RegisterGuard;
        let popped = self.free_regs.pop();
        match popped {
            Some(r) => {
                proof {
                    if simple_block(ops) {
                        // a simple block never spills, so nothing is ever
                        // on the stack
                        assert(spilled is None);
                        assert(r == old(self).free_regs@.last());
                        assert(self.free_regs@ =~= old(self).free_regs@.drop_last());
                    }
                }
                gd = match spilled {
                    Some(s) => RegisterGuard::Load(s, r),
                    None => RegisterGuard::Ready(r),
                };
            },
            None => {
                proof {
                    if simple_block(ops) {
                        // the pool cannot be empty: the table entry being
                        // served holds no register, so at most fifteen of
                        // the sixteen are taken
                        lemma_n_reg_bound(self.loc@, k as int);
                        assert(false);
                    }
                }
                match find_dead(&self.loc, lts, i) {
                    Some((k2, r)) => {
                        to_retire.push(k2);
                        gd = match spilled {
                            Some(s) => RegisterGuard::Load(s, r),
                            None => RegisterGuard::Ready(r),
                        };
                    },
                    None => {
                        match find_farthest(&self.loc, lts, i) {
                            Some((k2, r)) => {
                                proof {
                                    lemma_n_stack_bounds(self.loc@);
                                    // nothing awaits retirement: a pending
                                    // entry would still be a dead register
                                    // holder, and none was found
                                    assert forall|t: int|
                                        0 <= t < to_retire@.len() implies self.loc@[to_retire@[
                                    t] as int] is None by {
                                        if self.loc@[to_retire@[t] as int] matches Some(
                                            Location::Register(_),
                                        ) {
                                            assert(dead_at(*lts, to_retire@[t] as int, i as int));
                                            assert(false);
                                        }
                                    }
                                }
                                let save_slot = self.stack.alloc_slot();
                                let ghost mid_loc = self.loc@;
                                self.loc[k2] = Some(Location::Stack(save_slot));
                                proof {
                                    lemma_n_stack_update(
                                        mid_loc,
                                        k2 as int,
                                        Some(Location::Stack(save_slot)),
                                    );
                                }
                                gd = match spilled {
                                    Some(s) => RegisterGuard::SaveAndLoad(save_slot, s, r),
                                    None => RegisterGuard::Save(save_slot, r),
                                };
                            },
                            None => {
                                // unreachable in practice: the pool is only
                                // ever drained into register holders, and
                                // it is refilled at every call
                                gd = match spilled {
                                    Some(s) => RegisterGuard::Load(s, Register::X0),
                                    None => RegisterGuard::Ready(Register::X0),
                                };
                            },
                        }
                    },
                }
            },
        }
        match gd {
            RegisterGuard::Load(s, _) => {
                self.stack.free(s);
            },
            RegisterGuard::SaveAndLoad(_, s, _) => {
                self.stack.free(s);
            },
            _ => (),
        }
        proof {
            let locu = self.loc@.update(k as int, Some(Location::Register(gd.inner_reg_spec())));
            lemma_n_stack_update(
                self.loc@,
                k as int,
                Some(Location::Register(gd.inner_reg_spec())),
            );
            assert forall|kk: int| 0 <= kk < nv implies match #[trigger] locu[kk] {
                Some(Location::Stack(s2)) => s2 < self.stack@.size && !self.stack@.free.contains(
                    s2,
                ),
                Some(Location::Register(r2)) => r2.index_spec() < 16,
                None => true,
            } by {
                if kk != k {
                    assert(locu[kk] == self.loc@[kk]);
                }
            }
            assert forall|k1: int, k2: int|
                #![trigger locu[k1], locu[k2]]
                0 <= k1 < k2 < nv implies match (locu[k1], locu[k2]) {
                (Some(Location::Stack(s1)), Some(Location::Stack(s2))) => s1 != s2,
                _ => true,
            } by {
                if k1 != k && k2 != k {
                    assert(locu[k1] == self.loc@[k1] && locu[k2] == self.loc@[k2]);
                }
            }
            let gplus = self.regmap@.push((v, i, gd));
            assert forall|kk: int| 0 <= kk < nv implies match #[trigger] locu[kk] {
                Some(Location::Stack(s2)) => slot_saved(gplus, self.stack_saves@, s2),
                _ => true,
            } by {
                match locu[kk] {
                    Some(Location::Stack(s2)) => {
                        if loc0[kk] == Some(Location::Stack(s2)) {
                            assert(slot_saved(self.regmap@, self.stack_saves@, s2));
                            if exists|m: int|
                                0 <= m < self.regmap@.len() && (
                                #[trigger] self.regmap@[m]).2.save_slot() == Some(s2) {
                                let m = choose|m: int|
                                    0 <= m < self.regmap@.len() && (
                                    #[trigger] self.regmap@[m]).2.save_slot() == Some(s2);
                                assert(gplus[m].2.save_slot() == Some(s2));
                            }
                        } else {
                            assert(gd.save_slot() == Some(s2));
                            assert(gplus[gplus.len() - 1].2.save_slot() == Some(s2));
                        }
                    },
                    _ => {},
                }
            }
        }
        gd
    }
}

impl AllocState {
    /// Handles the table entry `k`, live at instruction `i`: computes its
    /// guard, re-homes it to a physical register, and records the guard.
    #[verifier::rlimit(100)]
    #[verifier::spinoff_prover]
    fn process(
        &mut self,
        lts: &LifetimeMap,
        to_retire: &mut Vec<usize>,
        k: usize,
        i: usize,
        Ghost(ops): Ghost<Seq<Operation>>,
        Ghost(g0): Ghost<Seq<GuardEntry>>,
        Ghost(nv): Ghost<int>,
    )
        requires
            old(self).inv(nv),
            nv == lts@.len(),
            nv <= 510,
            k < nv,
            lts.sorted(),
            forall|kk: int| 0 <= kk < lts@.len() ==> (#[trigger] lts@[kk]).1@.len() > 0,
            live_exact(*lts, ops, ops.len() as int),
            lts@[k as int].1.covers(i as int),
            (i as int) < ops.len(),
            i < usize::MAX,
            mid_guards(old(self).regmap@, g0, *lts, ops, i as int, k as int),
            saves_wf(old(self).stack_saves@, ops, i + 1),
            retire_ok(old(to_retire)@, old(self).loc@, *lts, i as int),
            forall|idx: int| 0 <= idx < g0.len() ==> (#[trigger] g0[idx]).1 < i,
            simple_block(ops) ==> {
                &&& pool16(old(self).loc@, old(self).free_regs@)
                &&& nv <= 16
                &&& region_agrees(old(self).regmap@, g0.len() as int, *lts, old(self).loc@, k as int)
                &&& guards_all_ready(old(self).regmap@)
                &&& same_instr_distinct(old(self).regmap@)
                &&& old(to_retire)@.len() == 0
            },
        ensures
            final(self).inv(nv),
            mid_guards(final(self).regmap@, g0, *lts, ops, i as int, k + 1),
            final(self).stack_saves == old(self).stack_saves,
            final(self).stack@.size >= old(self).stack@.size,
            retire_ok(final(to_retire)@, final(self).loc@, *lts, i as int),
            simple_block(ops) ==> {
                &&& pool16(final(self).loc@, final(self).free_regs@)
                &&& region_agrees(
                    final(self).regmap@,
                    g0.len() as int,
                    *lts,
                    final(self).loc@,
                    k + 1,
                )
                &&& guards_all_ready(final(self).regmap@)
                &&& same_instr_distinct(final(self).regmap@)
                &&& final(to_retire)@.len() == 0
                &&& final(self).stack == old(self).stack
            },
    {
        let v = lts.vreg_at(k);
        let here: Option<Location> = self.loc[k];
        let gd: RegisterGuard;
        match here {
            Some(Location::Register(r)) => {
                gd = RegisterGuard::Ready(r);
            },
            _ => {
                gd = self.acquire(lts, to_retire, k, i, Ghost(nv), Ghost(v), Ghost(ops));
            },
        }
        let ghost mid = *self;
        let inner = gd.inner_reg();
        self.loc[k] = Some(Location::Register(inner));
        self.regmap.push((v, i, gd));
        proof {
            let locu = mid.loc@.update(k as int, Some(Location::Register(gd.inner_reg_spec())));
            assert(self.loc@ == locu);
            let gplus = mid.regmap@.push((v, i, gd));
            assert(self.regmap@ == gplus);
            match here {
                Some(Location::Register(r)) => {
                    assert(mid == *old(self));
                    assert(locu =~= mid.loc@);
                    assert(gd.inner_reg_spec().index_spec() < 16);
                    assert forall|kk: int| 0 <= kk < nv implies match #[trigger] locu[kk] {
                        Some(Location::Stack(s2)) => slot_saved(gplus, mid.stack_saves@, s2),
                        _ => true,
                    } by {
                        match locu[kk] {
                            Some(Location::Stack(s2)) => {
                                assert(slot_saved(mid.regmap@, mid.stack_saves@, s2));
                                lemma_slot_saved_push(mid.regmap@, mid.stack_saves@, (v, i, gd), s2);
                            },
                            _ => {},
                        }
                    }
                },
                _ => {
                    assert forall|kk: int| 0 <= kk < nv implies match #[trigger] locu[kk] {
                        Some(Location::Stack(s2)) => slot_saved(gplus, mid.stack_saves@, s2),
                        _ => true,
                    } by {
                        match locu[kk] {
                            Some(Location::Stack(s2)) => {
                                assert(slot_saved(mid.regmap@.push((v, i, gd)), mid.stack_saves@, s2));
                            },
                            _ => {},
                        }
                    }
                },
            }
            assert(pool_inv(self.loc@, self.stack@));
            lemma_after_record(
                mid.regmap@,
                mid.stack_saves@,
                self.stack@,
                (v, i, gd),
                i as int,
            );
            lemma_mid_guards_push(mid.regmap@, g0, *lts, ops, i as int, k as int, (v, i, gd));
            // retirement entries stay register holders or cleared
            assert forall|t: int|
                0 <= t < to_retire@.len() implies (#[trigger] to_retire@[t]) < nv && (self.loc@[
                to_retire@[t] as int] matches Some(Location::Register(_)) || self.loc@[to_retire@[
                t] as int] is None) && dead_at(*lts, to_retire@[t] as int, i as int) by {
                match here {
                    Some(Location::Register(r)) => {
                        if to_retire@[t] != k {
                            assert(self.loc@[to_retire@[t] as int] == old(self).loc@[to_retire@[
                                t] as int]);
                        }
                    },
                    _ => {
                        if to_retire@[t] != k {
                            assert(self.loc@[to_retire@[t] as int] == mid.loc@[to_retire@[
                                t] as int]);
                        }
                    },
                }
            }
            if simple_block(ops) {
                assert(gd is Ready);
                assert(self.free_regs == mid.free_regs);
                match here {
                    Some(Location::Register(r)) => {
                        assert(mid.free_regs == old(self).free_regs);
                    },
                    _ => {},
                }
                lemma_pool16_step(
                    old(self).loc@,
                    self.loc@,
                    old(self).free_regs@,
                    self.free_regs@,
                    here,
                    gd,
                    k as int,
                );
                lemma_region_ready(
                    old(self).regmap@,
                    self.regmap@,
                    old(self).loc@,
                    self.loc@,
                    *lts,
                    g0.len() as int,
                    gd,
                    v,
                    i,
                    k as int,
                );
                assert forall|idx: int|
                    0 <= idx < g0.len() implies (#[trigger] old(self).regmap@[idx]).1 < i by {
                    assert(old(self).regmap@[idx] == g0[idx]);
                }
                lemma_distinct_step(
                    old(self).regmap@,
                    self.regmap@,
                    old(self).loc@,
                    old(self).free_regs@,
                    *lts,
                    g0.len() as int,
                    here,
                    gd,
                    v,
                    i,
                    k as int,
                );
            }
        }
    }
}

/// Handing the new register out of the free pool, or re-using the one the
/// entry already holds, keeps the sixteen-register partition.
#[verifier::rlimit(100)]
#[verifier::spinoff_prover]
proof fn lemma_pool16_step(
    loc1: Seq<Option<Location>>,
    loc2: Seq<Option<Location>>,
    free1: Seq<Register>,
    free2: Seq<Register>,
    here: Option<Location>,
    gd: RegisterGuard,
    k: int,
)
    requires
        0 <= k < loc1.len(),
        pool16(loc1, free1),
        here == loc1[k],
        match here {
            Some(Location::Register(r)) => gd == RegisterGuard::Ready(r) && free2 == free1,
            _ => {
                &&& free1.len() > 0
                &&& gd == RegisterGuard::Ready(free1.last())
                &&& free2 == free1.drop_last()
            },
        },
        loc2 == loc1.update(k, Some(Location::Register(gd.inner_reg_spec()))),
    ensures
        pool16(loc2, free2),
{
    let nv = loc1.len() as int;
    let inner = gd.inner_reg_spec();
    match here {
        Some(Location::Register(r)) => {
            assert(loc2 =~= loc1);
        },
        _ => {
            lemma_n_reg_update(loc1, k, Some(Location::Register(inner)));
            assert(reg_c(loc1[k]) == 0);
            assert forall|k1: int, k2: int|
                #![trigger loc2[k1], loc2[k2]]
                0 <= k1 < k2 < nv implies match (loc2[k1], loc2[k2]) {
                (Some(Location::Register(r1)), Some(Location::Register(r2))) => r1 != r2,
                _ => true,
            } by {
                if k1 != k && k2 != k {
                    assert(loc2[k1] == loc1[k1] && loc2[k2] == loc1[k2]);
                } else if k1 == k {
                    assert(loc2[k2] == loc1[k2]);
                    match loc1[k2] {
                        Some(Location::Register(r2)) => {
                            assert(free1[free1.len() - 1] != r2);
                        },
                        _ => {},
                    }
                } else {
                    assert(loc2[k1] == loc1[k1]);
                    match loc1[k1] {
                        Some(Location::Register(r1)) => {
                            assert(free1[free1.len() - 1] != r1);
                        },
                        _ => {},
                    }
                }
            }
            assert forall|kf: int, kk: int|
                #![trigger free2[kf], loc2[kk]]
                0 <= kf < free2.len() && 0 <= kk < nv implies match loc2[kk] {
                Some(Location::Register(r)) => free2[kf] != r,
                _ => true,
            } by {
                assert(free2[kf] == free1[kf]);
                if kk == k {
                    assert(free1[kf] != free1[free1.len() - 1]);
                } else {
                    assert(loc2[kk] == loc1[kk]);
                }
            }
        },
    }
}

/// The new guard's register differs from every register guarded at the
/// same instruction.
#[verifier::rlimit(100)]
#[verifier::spinoff_prover]
proof fn lemma_distinct_step(
    g1: Seq<GuardEntry>,
    g2: Seq<GuardEntry>,
    loc1: Seq<Option<Location>>,
    free1: Seq<Register>,
    lts: LifetimeMap,
    g0len: int,
    here: Option<Location>,
    gd: RegisterGuard,
    v: VirtualReg,
    i: usize,
    k: int,
)
    requires
        0 <= k < lts@.len(),
        loc1.len() == lts@.len(),
        v == lts@[k].0,
        pool16(loc1, free1),
        region_agrees(g1, g0len, lts, loc1, k),
        same_instr_distinct(g1),
        0 <= g0len <= g1.len(),
        forall|idx: int| 0 <= idx < g0len ==> (#[trigger] g1[idx]).1 < i,
        forall|idx: int| #![trigger g1[idx]] g0len <= idx < g1.len() ==> g1[idx].1 == i,
        here == loc1[k],
        match here {
            Some(Location::Register(r)) => gd == RegisterGuard::Ready(r),
            _ => {
                &&& free1.len() > 0
                &&& gd == RegisterGuard::Ready(free1.last())
            },
        },
        g2 == g1.push((v, i, gd)),
    ensures
        same_instr_distinct(g2),
{
    let glen = g1.len() as int;
    assert forall|i1: int, i2: int|
        #![trigger g2[i1], g2[i2]]
        0 <= i1 < i2 < g2.len() && g2[i1].1 == g2[i2].1 implies g2[i1].2.inner_reg_spec() != g2[
    i2].2.inner_reg_spec() by {
        if i2 < glen {
            assert(g2[i1] == g1[i1] && g2[i2] == g1[i2]);
        } else {
            // the new guard against an earlier guard of the same instruction
            assert(g2[i1] == g1[i1]);
            assert(g2[i2] == (v, i, gd));
            assert(g1[i1].1 == i);
            if i1 < g0len {
                assert(false);
            }
            let id1 = g1[i1].0.0;
            let kp1 = choose|kp: int|
                0 <= kp < k && (#[trigger] lts@[kp]).0.0 == id1 && loc1[kp] == Some(
                    Location::Register(g1[i1].2.inner_reg_spec()),
                );
            assert(kp1 < k);
            let r1 = g1[i1].2.inner_reg_spec();
            match here {
                Some(Location::Register(r)) => {
                    assert(loc1[k] == Some(Location::Register(r)));
                    assert(r1 != r);
                },
                _ => {
                    assert(free1[free1.len() - 1] != r1);
                },
            }
        }
    }
}

/// A slot recorded as saved stays recorded when one more guard is pushed.
proof fn lemma_slot_saved_push(
    g: Seq<GuardEntry>,
    saves: Seq<SaveEntry>,
    e: GuardEntry,
    s: u16,
)
    requires
        slot_saved(g, saves, s),
    ensures
        slot_saved(g.push(e), saves, s),
{
    if exists|m: int| 0 <= m < g.len() && (#[trigger] g[m]).2.save_slot() == Some(s) {
        let m = choose|m: int| 0 <= m < g.len() && (#[trigger] g[m]).2.save_slot() == Some(s);
        assert(g.push(e)[m].2.save_slot() == Some(s));
    }
}

/// Appending a guard whose slots are in range, and whose load slot was
/// saved before, keeps the slot-bound and load-provenance facts.
#[verifier::rlimit(100)]
proof fn lemma_after_record(
    g: Seq<GuardEntry>,
    saves: Seq<SaveEntry>,
    stack: StackModel,
    e: GuardEntry,
    i: int,
)
    requires
        guards_slots_ok(g, stack.size),
        guard_slots_lt(e.2, stack.size as int),
        saves_slots_ok(saves, stack.size),
        loads_have_prior_saves(g, saves),
        match e.2.load_slot() {
            Some(s) => slot_saved(g, saves, s),
            None => true,
        },
        forall|q: int| 0 <= q < saves.len() ==> (#[trigger] saves[q]).0 <= i,
        e.1 == i,
    ensures
        guards_slots_ok(g.push(e), stack.size),
        loads_have_prior_saves(g.push(e), saves),
{
    let gp = g.push(e);
    assert forall|idx: int| 0 <= idx < gp.len() implies guard_slots_lt(
        (#[trigger] gp[idx]).2,
        stack.size as int,
    ) by {
        if idx < g.len() {
            assert(gp[idx] == g[idx]);
            assert(guard_slots_lt(g[idx].2, stack.size as int));
        }
    }
    assert forall|idx: int| 0 <= idx < gp.len() implies match (#[trigger] gp[idx]).2.load_slot() {
        Some(s2) => (exists|m: int|
            0 <= m < idx && (#[trigger] gp[m]).2.save_slot() == Some(s2)) || (exists|
        q: int,
        t: int,
        |
            #![trigger saves[q].1@[t]]
            0 <= q < saves.len() && 0 <= t < saves[q].1@.len() && saves[q].0 <= gp[idx].1 && saves[
            q].1@[t].1 == s2),
        None => true,
    } by {
        if idx < g.len() {
            assert(gp[idx] == g[idx]);
            match g[idx].2.load_slot() {
                Some(s2) => {
                    if !(exists|m: int|
                        0 <= m < idx && (#[trigger] g[m]).2.save_slot() == Some(s2)) {
                        let (q, t) = choose|q: int, t: int|
                            #![trigger saves[q].1@[t]]
                            0 <= q < saves.len() && 0 <= t < saves[q].1@.len() && saves[q].0 <= g[
                                idx].1 && saves[q].1@[t].1 == s2;
                        assert(saves[q].1@[t].1 == s2 && saves[q].0 <= gp[idx].1);
                    } else {
                        let m = choose|m: int|
                            0 <= m < idx && (#[trigger] g[m]).2.save_slot() == Some(s2);
                        assert(gp[m].2.save_slot() == Some(s2));
                    }
                },
                None => {},
            }
        } else {
            match e.2.load_slot() {
                Some(s2) => {
                    if exists|m: int| 0 <= m < g.len() && (#[trigger] g[m]).2.save_slot() == Some(
                        s2,
                    ) {
                        let m = choose|m: int|
                            0 <= m < g.len() && (#[trigger] g[m]).2.save_slot() == Some(s2);
                        assert(gp[m].2.save_slot() == Some(s2) && m < idx);
                    } else {
                        let (q, t) = choose|q: int, t: int|
                            #![trigger saves[q].1@[t]]
                            0 <= q < saves.len() && 0 <= t < saves[q].1@.len() && saves[q].1@[t].1
                                == s2;
                        assert(saves[q].0 <= i && gp[idx].1 == i);
                    }
                },
                None => {},
            }
        }
    }
}

/// Recording the guard of the `k`-th registry entry moves the
/// mid-instruction guard shape from `k` to `k + 1`.
#[verifier::rlimit(100)]
proof fn lemma_mid_guards_push(
    g: Seq<GuardEntry>,
    g0: Seq<GuardEntry>,
    lts: LifetimeMap,
    ops: Seq<Operation>,
    i: int,
    k: int,
    e: GuardEntry,
)
    requires
        mid_guards(g, g0, lts, ops, i, k),
        lts.sorted(),
        0 <= k < lts@.len(),
        e.0 == lts@[k].0,
        e.1 == i,
        ops[i].mentions(e.0.0),
    ensures
        mid_guards(g.push(e), g0, lts, ops, i, k + 1),
{
    let gp = g.push(e);
    assert forall|i1: int, i2: int|
        #![trigger gp[i1], gp[i2]]
        g0.len() <= i1 < i2 < gp.len() implies gp[i1].0.0 < gp[i2].0.0 by {
        if i2 < gp.len() - 1 {
            assert(gp[i1] == g[i1] && gp[i2] == g[i2]);
        } else {
            assert(gp[i1] == g[i1]);
            let kp = choose|kp: int| 0 <= kp < k && (#[trigger] lts@[kp]).0.0 == g[i1].0.0;
            assert(lts@[kp].0.0 < lts@[k].0.0);
        }
    }
    assert forall|kp: int|
        0 <= kp < k + 1 && (#[trigger] lts@[kp]).1.covers(i) implies seq_has_guard(
        gp,
        lts@[kp].0.0,
        i,
    ) by {
        if kp < k {
            assert(seq_has_guard(g, lts@[kp].0.0, i));
            let m = choose|m: int|
                0 <= m < g.len() && (#[trigger] g[m]).0.0 == lts@[kp].0.0 && g[m].1 == i;
            assert(gp[m].0.0 == lts@[kp].0.0 && gp[m].1 == i);
        } else {
            assert(gp[gp.len() - 1].0.0 == e.0.0 && gp[gp.len() - 1].1 == i);
        }
    }
    assert forall|idx: int|
        #![trigger gp[idx]]
        g0.len() <= idx < gp.len() implies exists|kp: int|
            0 <= kp < k + 1 && (#[trigger] lts@[kp]).0.0 == gp[idx].0.0 by {
        if idx < gp.len() - 1 {
            assert(gp[idx] == g[idx]);
            let kp = choose|kp: int| 0 <= kp < k && (#[trigger] lts@[kp]).0.0 == g[idx].0.0;
            assert(0 <= kp < k + 1 && lts@[kp].0.0 == gp[idx].0.0);
        } else {
            assert(lts@[k].0.0 == gp[idx].0.0);
        }
    }
    assert forall|idx: int| 0 <= idx < g0.len() implies #[trigger] gp[idx] == g0[idx] by {
        assert(gp[idx] == g[idx]);
    }
}

/// Recording one more `Ready` guard keeps the current instruction's
/// guards agreeing with the registers their entries hold, and keeps every
/// guard a `Ready`.
#[verifier::rlimit(100)]
#[verifier::spinoff_prover]
proof fn lemma_region_ready(
    g1: Seq<GuardEntry>,
    g2: Seq<GuardEntry>,
    loc1: Seq<Option<Location>>,
    loc2: Seq<Option<Location>>,
    lts: LifetimeMap,
    g0len: int,
    gd: RegisterGuard,
    v: VirtualReg,
    i: usize,
    k: int,
)
    requires
        0 <= k < lts@.len(),
        loc1.len() == lts@.len(),
        v == lts@[k].0,
        region_agrees(g1, g0len, lts, loc1, k),
        guards_all_ready(g1),
        0 <= g0len <= g1.len(),
        g2 == g1.push((v, i, gd)),
        gd is Ready,
        loc2 == loc1.update(k, Some(Location::Register(gd.inner_reg_spec()))),
    ensures
        region_agrees(g2, g0len, lts, loc2, k + 1),
        guards_all_ready(g2),
{
    let glen = g1.len() as int;
    assert forall|idx: int|
        #![trigger g2[idx]]
        g0len <= idx < g2.len() implies exists|kp: int|
            0 <= kp < k + 1 && (#[trigger] lts@[kp]).0.0 == g2[idx].0.0 && loc2[kp] == Some(
                Location::Register(g2[idx].2.inner_reg_spec()),
            ) by {
        if idx < glen {
            assert(g2[idx] == g1[idx]);
            let kp = choose|kp: int|
                0 <= kp < k && (#[trigger] lts@[kp]).0.0 == g1[idx].0.0 && loc1[kp] == Some(
                    Location::Register(g1[idx].2.inner_reg_spec()),
                );
            assert(loc2[kp] == loc1[kp]);
        } else {
            assert(g2[idx] == (v, i, gd));
            assert(lts@[k].0.0 == v.0);
            assert(loc2[k] == Some(Location::Register(gd.inner_reg_spec())));
        }
    }
    assert forall|idx: int| 0 <= idx < g2.len() implies (#[trigger] g2[idx]).2 is Ready by {
        if idx < glen {
            assert(g2[idx] == g1[idx]);
        }
    }
}

/// At the end of instruction `i`, the mid-instruction guard shape plus the
/// per-block liveness facts give the whole-prefix guard facts for `i + 1`.
#[verifier::rlimit(100)]
proof fn lemma_finish_instruction(
    g: Seq<GuardEntry>,
    g0: Seq<GuardEntry>,
    lts: LifetimeMap,
    ops: Seq<Operation>,
    i: int,
)
    requires
        0 <= i < ops.len(),
        lts.sorted(),
        live_exact(lts, ops, ops.len() as int),
        live_dom(lts, ops, ops.len() as int),
        mid_guards(g, g0, lts, ops, i, lts@.len() as int),
        guards_sound(g0, ops, i),
        guards_unique(g0),
        guards_complete(g0, ops, i),
    ensures
        guards_sound(g, ops, i + 1),
        guards_unique(g),
        guards_complete(g, ops, i + 1),
{
    assert forall|idx: int|
        0 <= idx < g.len() implies 0 <= (#[trigger] g[idx]).1 < i + 1 && ops[g[
    idx].1 as int].mentions(g[idx].0.0) by {
        if idx < g0.len() {
            assert(g[idx] == g0[idx]);
        }
    }
    assert forall|i1: int, i2: int|
        #![trigger g[i1], g[i2]]
        0 <= i1 < i2 < g.len() implies !(g[i1].0.0 == g[i2].0.0 && g[i1].1 == g[i2].1) by {
        if i2 < g0.len() {
            assert(g[i1] == g0[i1] && g[i2] == g0[i2]);
        } else if i1 < g0.len() {
            assert(g[i1] == g0[i1]);
            assert(g[i1].1 < i);
        }
    }
    assert forall|v: u32, j: int|
        0 <= j < i + 1 && #[trigger] ops[j].mentions(v) implies seq_has_guard(g, v, j) by {
        if j < i {
            assert(seq_has_guard(g0, v, j));
            let m = choose|m: int|
                0 <= m < g0.len() && (#[trigger] g0[m]).0.0 == v && g0[m].1 == j;
            assert(g[m].0.0 == v && g[m].1 == j);
        } else {
            assert(lts.dom_has(v)) by {
                assert(exists|jj: int| 0 <= jj < ops.len() && (#[trigger] ops[jj]).mentions(v));
            }
            let kp = choose|kp: int| 0 <= kp < lts@.len() && (#[trigger] lts@[kp]).0.0 == v;
            assert(lts@[kp].1.covers(i)) by {
                lts.lemma_idx(kp, v);
            }
            assert(seq_has_guard(g, lts@[kp].0.0, i));
        }
    }
}

/// Everything `allocate` promises of its result, as one predicate, so
/// that callers can pass the fact around whole.
pub open spec fn allocate_post(bb: BasicBlock, alloc: Allocator) -> bool {
    &&& guards_unique(alloc.guards())
    &&& forall|v: u32, i: int|
        #[trigger] alloc.has_guard(v, i) <==> (0 <= i < bb.ops@.len() && bb.ops@[i].mentions(v))
    &&& guards_slots_ok(alloc.guards(), alloc.stack_size_spec() as int)
    &&& saves_slots_ok(alloc.saves(), alloc.stack_size_spec() as int)
    &&& saves_wf(alloc.saves(), bb.ops@, bb.ops@.len() as int)
    &&& loads_have_prior_saves(alloc.guards(), alloc.saves())
    &&& alloc.stack_size_spec() <= 3 * bb.ops@.len() + 1
    &&& forall|q: int|
        0 <= q < alloc.saves().len() ==> (#[trigger] alloc.saves()[q]).1@.len() <= 3
            * bb.ops@.len()
    &&& simple_block(bb.ops@) ==> same_instr_distinct(alloc.guards())
}

/// Allocates physical registers for each virtual register at any given
/// instruction of the block.
///
/// The result maps exactly the live `(register, instruction)` pairs, each
/// to one guard; every slot a guard or a caller-save record mentions lies
/// below the returned stack size; and every load comes after a save of the
/// same slot. The block-length bound is a machine limit: it keeps every
/// stack slot encodable in a load or store immediate.
#[verifier::rlimit(100)]
pub fn allocate(bb: &BasicBlock) -> (alloc: Allocator)
    requires
        bb.ops@.len() <= 170,
    ensures
        guards_unique(alloc.guards()),
        forall|v: u32, i: int|
            #[trigger] alloc.has_guard(v, i) <==> (0 <= i < bb.ops@.len()
                && bb.ops@[i].mentions(v)),
        guards_slots_ok(alloc.guards(), alloc.stack_size_spec() as int),
        saves_slots_ok(alloc.saves(), alloc.stack_size_spec() as int),
        saves_wf(alloc.saves(), bb.ops@, bb.ops@.len() as int),
        loads_have_prior_saves(alloc.guards(), alloc.saves()),
        alloc.stack_size_spec() <= 3 * bb.ops@.len() + 1,
        forall|q: int|
            0 <= q < alloc.saves().len() ==> (#[trigger] alloc.saves()[q]).1@.len() <= 3
                * bb.ops@.len(),
        simple_block(bb.ops@) ==> same_instr_distinct(alloc.guards()) && guards_all_ready(
            alloc.guards(),
        ) && alloc.saves().len() == 0 && alloc.stack_size_spec() == 0,
        allocate_post(*bb, alloc),
{
    let lifetimes = bb.lifetimes();
    let nv = lifetimes.len();
    let mut loc: Vec<Option<Location>> = Vec::new();
    let mut j: usize = 0;
    while j < nv
        invariant
            0 <= j <= nv,
            loc@.len() == j,
            n_stack(loc@) == 0,
            n_reg(loc@) == 0,
            forall|kk: int| 0 <= kk < j ==> (#[trigger] loc@[kk]) is None,
        decreases nv - j,
    {
        let ghost pre = loc@;
        loc.push(None);
        proof {
            lemma_n_stack_push(pre, None);
            lemma_n_reg_push(pre, None);
        }
        j += 1;
    }
    let mut st = AllocState {
        loc,
        free_regs: caller_saved_regs(),
        stack: Stack::default(),
        regmap: Vec::new(),
        stack_saves: Vec::new(),
    };
    let n = bb.ops.len();
    let ghost ops = bb.ops@;
    proof {
        if simple_block(ops) {
            lemma_simple_block_nv(lifetimes, ops);
        }
        assert forall|k1: int, k2: int|
            #![trigger st.free_regs@[k1], st.free_regs@[k2]]
            0 <= k1 < k2 < st.free_regs@.len() implies st.free_regs@[k1] != st.free_regs@[k2] by {
            assert(st.free_regs@[k1].index_spec() == k1);
            assert(st.free_regs@[k2].index_spec() == k2);
        }
    }
    let mut i: usize = 0;
    while i < n
        invariant
            n == bb.ops@.len(),
            n <= 170,
            ops == bb.ops@,
            0 <= i <= n,
            nv == lifetimes@.len(),
            nv <= 510,
            lifetimes_wf(lifetimes, n as int),
            live_exact(lifetimes, ops, n as int),
            live_dom(lifetimes, ops, n as int),
            st.inv(nv as int),
            guards_sound(st.regmap@, ops, i as int),
            guards_unique(st.regmap@),
            guards_complete(st.regmap@, ops, i as int),
            saves_wf(st.stack_saves@, ops, i as int),
            forall|q: int|
                0 <= q < st.stack_saves@.len() ==> (#[trigger] st.stack_saves@[q]).1@.len() <= nv,
            simple_block(ops) ==> pool16(st.loc@, st.free_regs@) && guards_all_ready(st.regmap@)
                && same_instr_distinct(st.regmap@) && nv <= 16 && st.stack_saves@.len() == 0
                && st.stack@.size == 0,
        decreases n - i,
    {
        let is_call = match &bb.ops[i] {
            Operation::Call { .. } => true,
            _ => false,
        };
        if is_call {
            proof {
                assert(ops[i as int] is Call);
                assert(!simple_block(ops));
            }
            let ghost presv = st.stack_saves@;
            st.spill_for_call(i, Ghost(ops), Ghost(nv as int));
            proof {
                assert forall|q: int|
                    0 <= q < st.stack_saves@.len() implies (#[trigger] st.stack_saves@[q]).1@.len()
                    <= nv by {
                    if !(st.stack_saves@[q].1@.len() <= nv) {
                        let q2 = choose|q2: int|
                            0 <= q2 < presv.len() && presv[q2] == st.stack_saves@[q];
                    }
                }
            }
        }
        let mut to_retire: Vec<usize> = Vec::new();
        let ghost g0 = st.regmap@;
        let mut k: usize = 0;
        while k < nv
            invariant
                n == bb.ops@.len(),
                n <= 170,
                ops == bb.ops@,
                0 <= i < n,
                0 <= k <= nv,
                nv == lifetimes@.len(),
                nv <= 510,
                lifetimes_wf(lifetimes, n as int),
                live_exact(lifetimes, ops, n as int),
                live_dom(lifetimes, ops, n as int),
                st.inv(nv as int),
                mid_guards(st.regmap@, g0, lifetimes, ops, i as int, k as int),
                guards_sound(g0, ops, i as int),
                guards_unique(g0),
                guards_complete(g0, ops, i as int),
                saves_wf(st.stack_saves@, ops, i + 1),
                forall|q: int|
                    0 <= q < st.stack_saves@.len() ==> (#[trigger] st.stack_saves@[q]).1@.len()
                        <= nv,
                retire_ok(to_retire@, st.loc@, lifetimes, i as int),
                forall|idx: int| 0 <= idx < g0.len() ==> (#[trigger] g0[idx]).1 < i,
                simple_block(ops) ==> pool16(st.loc@, st.free_regs@) && region_agrees(
                    st.regmap@,
                    g0.len() as int,
                    lifetimes,
                    st.loc@,
                    k as int,
                ) && guards_all_ready(st.regmap@) && same_instr_distinct(st.regmap@)
                    && to_retire@.len() == 0 && nv <= 16 && st.stack_saves@.len() == 0
                    && st.stack@.size == 0,
            decreases nv - k,
        {
            let active = lifetimes.lifetime_at(k).at_index(i);
            match active {
                Some(_) => {
                    st.process(
                        &lifetimes,
                        &mut to_retire,
                        k,
                        i,
                        Ghost(ops),
                        Ghost(g0),
                        Ghost(nv as int),
                    );
                },
                None => {
                    proof {
                        assert(!lifetimes@[k as int].1.covers(i as int));
                    }
                },
            }
            k += 1;
        }
        st.retire(&to_retire, Ghost(nv as int));
        proof {
            lemma_finish_instruction(st.regmap@, g0, lifetimes, ops, i as int);
        }
        i += 1;
    }
    let stack_size = st.stack.stack_size;
    let out = Allocator { regmap: st.regmap, stack_size, stack_saves: st.stack_saves };
    proof {
        assert forall|v: u32, i2: int| #[trigger]
            out.has_guard(v, i2) <==> (0 <= i2 < bb.ops@.len() && bb.ops@[i2].mentions(v)) by {
            if out.has_guard(v, i2) {
                let idx = choose|idx: int|
                    0 <= idx < out.guards().len() && (#[trigger] out.guards()[idx]).0.0 == v
                        && out.guards()[idx].1 == i2;
                assert(ops[out.guards()[idx].1 as int].mentions(out.guards()[idx].0.0));
            }
            if 0 <= i2 < bb.ops@.len() && bb.ops@[i2].mentions(v) {
                assert(seq_has_guard(out.guards(), v, i2));
            }
        }
    }
    out
}

/// The set of register ids the block mentions anywhere.
pub open spec fn mentioned_set(ops: Seq<Operation>) -> Set<u32> {
    Set::new(|v: u32| exists|j: int| 0 <= j < ops.len() && (#[trigger] ops[j]).mentions(v))
}

/// The block makes no calls.
pub open spec fn no_calls(ops: Seq<Operation>) -> bool {
    forall|j: int| 0 <= j < ops.len() ==> !((#[trigger] ops[j]) is Call)
}

/// A block the sixteen-register pool always suffices for: no calls, and at
/// most sixteen distinct registers mentioned in total.
pub open spec fn simple_block(ops: Seq<Operation>) -> bool {
    &&& no_calls(ops)
    &&& mentioned_set(ops).finite()
    &&& mentioned_set(ops).len() <= 16
}

/// A block that makes no calls and whose registers are covered by at most
/// sixteen listed ids is a simple block. This discharges the hypothesis of
/// the distinct-registers law on concrete blocks.
pub proof fn lemma_simple_block(ops: Seq<Operation>, ids: Seq<u32>)
    requires
        no_calls(ops),
        ids.len() <= 16,
        forall|k1: int, k2: int|
            #![trigger ids[k1], ids[k2]]
            0 <= k1 < k2 < ids.len() ==> ids[k1] != ids[k2],
        forall|v: u32, j: int|
            0 <= j < ops.len() && #[trigger] ops[j].mentions(v) ==> ids.contains(v),
    ensures
        simple_block(ops),
{
    let s_ids = Set::new(|v: u32| exists|k: int| 0 <= k < ids.len() && (#[trigger] ids[k]) == v);
    assert forall|v: u32| #[trigger]
        s_ids.contains(v) <==> exists|k: int| 0 <= k < ids.len() && ids[k] == v by {}
    lemma_enumerated_card(ids, s_ids);
    assert(mentioned_set(ops).subset_of(s_ids)) by {
        assert forall|v: u32| #[trigger] mentioned_set(ops).contains(v) implies s_ids.contains(
            v,
        ) by {
            let j = choose|j: int| 0 <= j < ops.len() && (#[trigger] ops[j]).mentions(v);
            assert(ids.contains(v));
            let k = choose|k: int| 0 <= k < ids.len() && (#[trigger] ids[k]) == v;
            assert(s_ids.contains(v));
        }
    }
    vstd::set_lib::lemma_len_subset(mentioned_set(ops), s_ids);
}

/// A set enumerated without repetition by a sequence has the sequence's
/// length.
proof fn lemma_enumerated_card(keys: Seq<u32>, s: Set<u32>)
    requires
        forall|k1: int, k2: int|
            #![trigger keys[k1], keys[k2]]
            0 <= k1 < k2 < keys.len() ==> keys[k1] != keys[k2],
        forall|v: u32|
            #[trigger] s.contains(v) <==> exists|k: int| 0 <= k < keys.len() && keys[k] == v,
    ensures
        s.finite(),
        s.len() == keys.len(),
    decreases keys.len(),
{
    broadcast use vstd::set::group_set_axioms;

    if keys.len() == 0 {
        assert(s =~= Set::<u32>::empty());
    } else {
        let shorter = keys.drop_last();
        let s2 = Set::new(
            |v: u32| exists|k: int| 0 <= k < shorter.len() && (#[trigger] shorter[k]) == v,
        );
        assert forall|v: u32| #[trigger]
            s2.contains(v) <==> exists|k: int| 0 <= k < shorter.len() && shorter[k] == v by {}
        lemma_enumerated_card(shorter, s2);
        let last = keys.last();
        assert(!s2.contains(last)) by {
            if exists|k: int| 0 <= k < shorter.len() && (#[trigger] shorter[k]) == last {
                let k = choose|k: int| 0 <= k < shorter.len() && (#[trigger] shorter[k]) == last;
                assert(keys[k] == keys[keys.len() - 1]);
            }
        }
        assert(s =~= s2.insert(last)) by {
            assert forall|v: u32| #[trigger] s.contains(v) implies s2.insert(last).contains(v) by {
                let k = choose|k: int| 0 <= k < keys.len() && (#[trigger] keys[k]) == v;
                if k < keys.len() - 1 {
                    assert(shorter[k] == v);
                    assert(s2.contains(v));
                }
            }
            assert forall|v: u32| s2.insert(last).contains(v) implies #[trigger] s.contains(v) by {
                if s2.contains(v) {
                    let k = choose|k: int|
                        0 <= k < shorter.len() && (#[trigger] shorter[k]) == v;
                    assert(keys[k] == v);
                } else {
                    assert(keys[keys.len() - 1] == v);
                }
            }
        }
        vstd::set::axiom_set_insert_len(s2, last);
    }
}

/// Under the liveness facts, a simple block's lifetime registry has at
/// most sixteen entries.
proof fn lemma_simple_block_nv(lts: LifetimeMap, ops: Seq<Operation>)
    requires
        lts.sorted(),
        live_dom(lts, ops, ops.len() as int),
        simple_block(ops),
    ensures
        lts@.len() <= 16,
{
    let keys = Seq::new(lts@.len(), |k: int| lts@[k].0.0);
    assert forall|v: u32| #[trigger]
        mentioned_set(ops).contains(v) <==> exists|k: int|
            0 <= k < keys.len() && keys[k] == v by {
        if mentioned_set(ops).contains(v) {
            assert(exists|j: int| 0 <= j < ops.len() && (#[trigger] ops[j]).mentions(v));
            assert(lts.dom_has(v));
            let k = choose|k: int| 0 <= k < lts@.len() && (#[trigger] lts@[k]).0.0 == v;
            assert(keys[k] == v);
        }
        if exists|k: int| 0 <= k < keys.len() && (#[trigger] keys[k]) == v {
            let k = choose|k: int| 0 <= k < keys.len() && (#[trigger] keys[k]) == v;
            assert(lts@[k].0.0 == v);
            assert(lts.dom_has(v));
        }
    }
    lemma_enumerated_card(keys, mentioned_set(ops));
}

/// How many registers of the table currently sit in physical registers.
pub open spec fn reg_c(l: Option<Location>) -> int {
    match l {
        Some(Location::Register(_)) => 1,
        _ => 0,
    }
}

pub open spec fn n_reg(s: Seq<Option<Location>>) -> int
    decreases s.len(),
{
    if s.len() == 0 {
        0
    } else {
        n_reg(s.drop_last()) + reg_c(s.last())
    }
}

pub proof fn lemma_n_reg_update(s: Seq<Option<Location>>, k: int, x: Option<Location>)
    requires
        0 <= k < s.len(),
    ensures
        n_reg(s.update(k, x)) == n_reg(s) - reg_c(s[k]) + reg_c(x),
    decreases s.len(),
{
    let su = s.update(k, x);
    if k == s.len() - 1 {
        assert(su.drop_last() =~= s.drop_last());
    } else {
        assert(su.drop_last() =~= s.drop_last().update(k, x));
        lemma_n_reg_update(s.drop_last(), k, x);
        assert(su.last() == s.last());
    }
}

pub proof fn lemma_n_reg_push(s: Seq<Option<Location>>, x: Option<Location>)
    ensures
        n_reg(s.push(x)) == n_reg(s) + reg_c(x),
{
    assert(s.push(x).drop_last() =~= s);
}

/// A table entry that holds no register keeps the register count below the
/// entry count.
pub proof fn lemma_n_reg_bound(s: Seq<Option<Location>>, k: int)
    requires
        0 <= k < s.len(),
        !(s[k] matches Some(Location::Register(_))),
    ensures
        0 <= n_reg(s) <= s.len() - 1,
    decreases s.len(),
{
    if k == s.len() - 1 {
        lemma_n_reg_le(s.drop_last());
    } else {
        lemma_n_reg_bound(s.drop_last(), k);
        assert(s.drop_last()[k] == s[k]);
    }
}

pub proof fn lemma_n_reg_le(s: Seq<Option<Location>>)
    ensures
        0 <= n_reg(s) <= s.len(),
    decreases s.len(),
{
    if s.len() > 0 {
        lemma_n_reg_le(s.drop_last());
    }
}

/// The pool-side state a simple block keeps: sixteen registers split
/// exactly between the free pool and the table, no duplicates anywhere,
/// and nothing spilled.
pub open spec fn pool16(loc: Seq<Option<Location>>, free: Seq<Register>) -> bool {
    &&& free.len() + n_reg(loc) == 16
    &&& forall|k1: int, k2: int|
        #![trigger free[k1], free[k2]]
        0 <= k1 < k2 < free.len() ==> free[k1] != free[k2]
    &&& forall|kf: int, k: int|
        #![trigger free[kf], loc[k]]
        0 <= kf < free.len() && 0 <= k < loc.len() ==> match loc[k] {
            Some(Location::Register(r)) => free[kf] != r,
            _ => true,
        }
    &&& forall|k1: int, k2: int|
        #![trigger loc[k1], loc[k2]]
        0 <= k1 < k2 < loc.len() ==> match (loc[k1], loc[k2]) {
            (Some(Location::Register(r1)), Some(Location::Register(r2))) => r1 != r2,
            _ => true,
        }
    &&& forall|k: int| 0 <= k < loc.len() ==> !((#[trigger] loc[k]) matches Some(Location::Stack(_)))
}

/// Every guard of the current instruction's region protects the register
/// its table entry currently holds; the entries involved lie below
/// `kbound`, the scan position within the registry.
pub open spec fn region_agrees(
    g: Seq<GuardEntry>,
    g0len: int,
    lts: LifetimeMap,
    loc: Seq<Option<Location>>,
    kbound: int,
) -> bool {
    forall|idx: int|
        #![trigger g[idx]]
        g0len <= idx < g.len() ==> exists|kp: int|
            0 <= kp < kbound && (#[trigger] lts@[kp]).0.0 == g[idx].0.0 && loc[kp] == Some(
                Location::Register(g[idx].2.inner_reg_spec()),
            )
}

/// Every recorded guard is a plain `Ready`.
pub open spec fn guards_all_ready(g: Seq<GuardEntry>) -> bool {
    forall|idx: int| 0 <= idx < g.len() ==> (#[trigger] g[idx]).2 is Ready
}

/// Guards of one instruction protect pairwise distinct registers.
pub open spec fn same_instr_distinct(g: Seq<GuardEntry>) -> bool {
    forall|i1: int, i2: int|
        #![trigger g[i1], g[i2]]
        0 <= i1 < i2 < g.len() && g[i1].1 == g[i2].1 ==> g[i1].2.inner_reg_spec()
            != g[i2].2.inner_reg_spec()
}

} // verus!
