//! The linear three-address intermediate form: virtual registers, operations,
//! straight-line basic blocks, and the per-block liveness analysis.

use vstd::prelude::*;

use crate::ir::lifetime::{Interval, Lifetime, LifetimeMap};

pub mod codegen;
pub mod lifetime;

verus! {

/// An opaque identifier for a value; produced monotonically by the IR
/// generator and written at most once per block.
#[derive(Debug, Clone, Copy, PartialEq, Eq, Structural, Hash)]
pub struct VirtualReg(pub u32);

/// True when some element of `s` is the virtual register with id `v`.
pub open spec fn seq_has_id(s: Seq<VirtualReg>, v: u32) -> bool {
    exists|k: int| 0 <= k < s.len() && s[k].0 == v
}

/// A whole program in linear form.
pub struct IR {
    pub items: Vec<Item>,
}

pub enum Item {
    Function { name: String, bb: BasicBlock },
}

/// A straight-line sequence of operations: control enters at index zero and
/// leaves through `Return` or by falling off the end.
pub struct BasicBlock {
    pub ops: Vec<Operation>,
}

/// The registry `r` is well-formed as a lifetime table for a block of
/// `upto` instructions: sorted by register id, every lifetime made of
/// non-empty, disjoint, maximally-run intervals within `[0, upto)`, none of
/// them yet assigned a physical register.
pub open spec fn lifetimes_wf(r: LifetimeMap, upto: int) -> bool {
    &&& r.sorted()
    &&& lifetimes_wf_entries(r, upto)
}

/// Each stored lifetime covers an instruction index exactly when its
/// register is mentioned there, over the first `upto` instructions.
pub open spec fn live_exact(r: LifetimeMap, ops: Seq<Operation>, upto: int) -> bool {
    forall|k: int, j: int|
        0 <= k < r@.len() ==> ((#[trigger] r@[k].1.covers(j)) <==> (0 <= j < upto
            && ops[j].mentions(r@[k].0.0)))
}

/// The registry has an entry exactly for the registers mentioned in the
/// first `upto` instructions.
pub open spec fn live_dom(r: LifetimeMap, ops: Seq<Operation>, upto: int) -> bool {
    forall|v: u32|
        #[trigger] r.dom_has(v) <==> exists|j: int|
            0 <= j < upto && (#[trigger] ops[j]).mentions(v)
}

impl BasicBlock {
    /// Generates a registry mapping each virtual register of the block to
    /// its lifetime.
    ///
    /// The result is exact: a register's lifetime covers an instruction
    /// index if and only if the instruction mentions the register, every
    /// lifetime is non-empty and made of disjoint intervals in strictly
    /// increasing order, and every mention of a register in the block falls
    /// inside one of its intervals.
    pub fn lifetimes(&self) -> (r: LifetimeMap)
        ensures
            lifetimes_wf(r, self.ops@.len() as int),
            live_exact(r, self.ops@, self.ops@.len() as int),
            live_dom(r, self.ops@, self.ops@.len() as int),
            r@.len() <= 3 * self.ops@.len(),
    {
        let mut table = LifetimeMap::new();
        let mut uses: Vec<VirtualReg> = Vec::new();
        let n = self.ops.len();
        let mut i: usize = 0;
        while i < n
            invariant
                n == self.ops@.len(),
                0 <= i <= n,
                lifetimes_wf(table, i as int),
                live_exact(table, self.ops@, i as int),
                live_dom(table, self.ops@, i as int),
                table@.len() <= 3 * i,
            decreases n - i,
        {
            uses.clear();
            self.ops[i].vregs_used(&mut uses);
            let nu = uses.len();
            let mut m: usize = 0;
            proof {
                lemma_mid_init(table, self.ops@, uses@, i as int);
            }
            while m < nu
                invariant
                    n == self.ops@.len(),
                    0 <= i < n,
                    nu == uses@.len(),
                    nu <= 3,
                    0 <= m <= nu,
                    forall|v: u32|
                        #[trigger] seq_has_id(uses@, v) <==> self.ops@[i as int].mentions(v),
                    forall|j1: int, j2: int|
                        #![trigger uses@[j1], uses@[j2]]
                        0 <= j1 < j2 < nu ==> uses@[j1] != uses@[j2],
                    lifetimes_wf(table, i + 1),
                    mid_exact(table, self.ops@, uses@, i as int, m as int),
                    mid_dom(table, self.ops@, uses@, i as int, m as int),
                    table@.len() <= 3 * i + m,
                decreases nu - m,
            {
                let v = uses[m];
                proof {
                    // v has not been handled yet in this instruction
                    assert forall|mm: int| 0 <= mm < m implies (#[trigger] uses@[mm]).0 != v.0 by {
                        assert(uses@[mm] != uses@[m as int]);
                    }
                }
                record_use(&mut table, v, i, Ghost(self.ops@), Ghost(uses@), Ghost(m as int));
                m += 1;
            }
            proof {
                lemma_mid_done(table, self.ops@, uses@, i as int);
            }
            i += 1;
        }
        table
    }
}

/// Records that register `v`, the `m`-th register mentioned by instruction
/// `i`, is live at `i`: extends its current run, starts a new run, or makes
/// a fresh entry.
#[verifier::rlimit(100)]
#[verifier::spinoff_prover]
fn record_use(
    table: &mut LifetimeMap,
    v: VirtualReg,
    i: usize,
    Ghost(ops): Ghost<Seq<Operation>>,
    Ghost(uses): Ghost<Seq<VirtualReg>>,
    Ghost(m): Ghost<int>,
)
    requires
        0 <= m < uses.len(),
        uses[m] == v,
        i < usize::MAX,
        (i as int) < ops.len(),
        forall|mm: int| 0 <= mm < m ==> (#[trigger] uses[mm]).0 != v.0,
        lifetimes_wf(*old(table), i + 1),
        mid_exact(*old(table), ops, uses, i as int, m),
        mid_dom(*old(table), ops, uses, i as int, m),
    ensures
        lifetimes_wf(*final(table), i + 1),
        mid_exact(*final(table), ops, uses, i as int, m + 1),
        mid_dom(*final(table), ops, uses, i as int, m + 1),
        final(table)@.len() <= old(table)@.len() + 1,
{
    match table.find_index(v.0) {
        Some(k) => {
            proof {
                table.lemma_idx(k as int, v.0);
            }
            record_use_existing(table, v, i, k, Ghost(ops), Ghost(uses), Ghost(m));
        },
        None => {
            proof {
                assert(!prefix_has_id(uses, m, v.0));
            }
            let fresh = Lifetime::new_run(i);
            let ghost flt = fresh;
            let ghost t1 = *table;
            let p = table.insert_entry(v, fresh);
            proof {
                lemma_table_insert(t1, *table, ops, uses, i as int, m, p as int, flt);
            }
        },
    }
}

/// Records a use of a register that already has a lifetime entry, at index
/// `k` of the registry: extends the current run or starts a new one.
#[verifier::rlimit(100)]
#[verifier::spinoff_prover]
fn record_use_existing(
    table: &mut LifetimeMap,
    v: VirtualReg,
    i: usize,
    k: usize,
    Ghost(ops): Ghost<Seq<Operation>>,
    Ghost(uses): Ghost<Seq<VirtualReg>>,
    Ghost(m): Ghost<int>,
)
    requires
        0 <= m < uses.len(),
        uses[m] == v,
        i < usize::MAX,
        (i as int) < ops.len(),
        forall|mm: int| 0 <= mm < m ==> (#[trigger] uses[mm]).0 != v.0,
        lifetimes_wf(*old(table), i + 1),
        mid_exact(*old(table), ops, uses, i as int, m),
        mid_dom(*old(table), ops, uses, i as int, m),
        k < old(table)@.len(),
        old(table)@[k as int].0.0 == v.0,
    ensures
        lifetimes_wf(*final(table), i + 1),
        mid_exact(*final(table), ops, uses, i as int, m + 1),
        mid_dom(*final(table), ops, uses, i as int, m + 1),
        final(table)@.len() == old(table)@.len(),
{
    proof {
        assert(!prefix_has_id(uses, m, v.0));
        // the entry does not yet cover i, so every interval of it ends at
        // or before i
        assert(!table@[k as int].1.covers(i as int));
        assert forall|j: int|
            0 <= j < table@[k as int].1@.len() implies (#[trigger] table@[k as int].1@[j]).end
            <= i by {
            if table@[k as int].1@[j].end == i + 1 {
                assert(table@[k as int].1@[j].covers(i as int));
            }
        }
        assert(table@[k as int].1@.last().end <= i);
    }
    let ghost t1 = *table;
    let lt = table.lifetime_at_mut(k);
    let le = lt.last_end();
    if le == i {
        lt.extend_last(i + 1);
    } else {
        lt.push_run(i);
    }
    proof {
        let olt = t1@[k as int].1;
        let nlt = table@[k as int].1;
        assert(table@ == t1@.update(k as int, (t1@[k as int].0, nlt)));
        if le == i {
            lemma_lifetime_extend(olt, nlt, i as int);
        } else {
            lemma_lifetime_push(olt, nlt, i as int);
        }
        lemma_table_update(t1, *table, ops, uses, i as int, m, k as int);
    }
}

/// True when one of the first `m` elements of `uses` has register id `v`.
pub open spec fn prefix_has_id(uses: Seq<VirtualReg>, m: int, v: u32) -> bool {
    exists|mm: int| 0 <= mm < m && (#[trigger] uses[mm]).0 == v
}

/// Exactness of a lifetime table in the middle of instruction `i`: all
/// earlier instructions are fully recorded, and of instruction `i` exactly
/// the first `m` mentioned registers are.
pub open spec fn mid_exact(
    t: LifetimeMap,
    ops: Seq<Operation>,
    uses: Seq<VirtualReg>,
    i: int,
    m: int,
) -> bool {
    forall|k: int, j: int|
        0 <= k < t@.len() ==> ((#[trigger] t@[k].1.covers(j)) <==> ((0 <= j < i
            && ops[j].mentions(t@[k].0.0)) || (j == i && prefix_has_id(uses, m, t@[k].0.0))))
}

/// Domain of a lifetime table in the middle of instruction `i`.
pub open spec fn mid_dom(
    t: LifetimeMap,
    ops: Seq<Operation>,
    uses: Seq<VirtualReg>,
    i: int,
    m: int,
) -> bool {
    forall|v: u32|
        #[trigger] t.dom_has(v) <==> ((exists|j: int|
            0 <= j < i && (#[trigger] ops[j]).mentions(v)) || prefix_has_id(uses, m, v))
}

/// Entering instruction `i` with none of its uses recorded yet.
proof fn lemma_mid_init(t: LifetimeMap, ops: Seq<Operation>, uses: Seq<VirtualReg>, i: int)
    requires
        live_exact(t, ops, i),
        live_dom(t, ops, i),
    ensures
        mid_exact(t, ops, uses, i, 0),
        mid_dom(t, ops, uses, i, 0),
{
}

/// Leaving instruction `i` with all of its uses recorded.
#[verifier::rlimit(100)]
proof fn lemma_mid_done(t: LifetimeMap, ops: Seq<Operation>, uses: Seq<VirtualReg>, i: int)
    requires
        0 <= i < ops.len(),
        mid_exact(t, ops, uses, i, uses.len() as int),
        mid_dom(t, ops, uses, i, uses.len() as int),
        forall|v: u32| #[trigger] seq_has_id(uses, v) <==> ops[i].mentions(v),
    ensures
        live_exact(t, ops, i + 1),
        live_dom(t, ops, i + 1),
{
    assert forall|v: u32| prefix_has_id(uses, uses.len() as int, v) == #[trigger] seq_has_id(
        uses,
        v,
    ) by {
        if prefix_has_id(uses, uses.len() as int, v) {
            let mm = choose|mm: int| 0 <= mm < uses.len() && (#[trigger] uses[mm]).0 == v;
            assert(seq_has_id(uses, v));
        }
        if seq_has_id(uses, v) {
            let mm = choose|mm: int| 0 <= mm < uses.len() && uses[mm].0 == v;
            assert(prefix_has_id(uses, uses.len() as int, v));
        }
    }
    assert forall|k: int, j: int| 0 <= k < t@.len() implies ((#[trigger] t@[k].1.covers(j)) <==> (0
        <= j < i + 1 && ops[j].mentions(t@[k].0.0))) by {
        let v = t@[k].0.0;
        assert(prefix_has_id(uses, uses.len() as int, v) == seq_has_id(uses, v));
        assert(seq_has_id(uses, v) <==> ops[i].mentions(v));
        assert(t@[k].1.covers(j) <==> ((0 <= j < i && ops[j].mentions(v)) || (j == i
            && prefix_has_id(uses, uses.len() as int, v))));
    }
    assert forall|v: u32| #[trigger] t.dom_has(v) <==> (exists|j: int|
        0 <= j < i + 1 && (#[trigger] ops[j]).mentions(v)) by {
        if t.dom_has(v) {
            if !(exists|j: int| 0 <= j < i && (#[trigger] ops[j]).mentions(v)) {
                assert(prefix_has_id(uses, uses.len() as int, v));
                assert(prefix_has_id(uses, uses.len() as int, v) == seq_has_id(uses, v));
                assert(seq_has_id(uses, v) <==> ops[i].mentions(v));
                assert(ops[i].mentions(v));
            }
        } else {
            if exists|j: int| 0 <= j < i + 1 && (#[trigger] ops[j]).mentions(v) {
                let j = choose|j: int| 0 <= j < i + 1 && (#[trigger] ops[j]).mentions(v);
                if j == i {
                    assert(seq_has_id(uses, v) <==> ops[i].mentions(v));
                    assert(seq_has_id(uses, v));
                    assert(prefix_has_id(uses, uses.len() as int, v) == seq_has_id(uses, v));
                }
                assert(t.dom_has(v));
            }
        }
    }
}

/// Extending the last interval of a lifetime from end `i` to `i + 1` covers
/// exactly the old positions plus `i`, and keeps the structure.
#[verifier::rlimit(100)]
#[verifier::spinoff_prover]
proof fn lemma_lifetime_extend(olt: Lifetime, nlt: Lifetime, i: int)
    requires
        olt.inv(),
        olt.separated(),
        olt@.len() > 0,
        olt@.last().end == i,
        0 <= i < usize::MAX,
        forall|j: int| 0 <= j < olt@.len() ==> (#[trigger] olt@[j]).end <= i + 1,
        forall|j: int| 0 <= j < olt@.len() ==> (#[trigger] olt@[j]).register is None,
        nlt@ == olt@.update(
            olt@.len() - 1,
            Interval {
                start: olt@.last().start,
                end: (i + 1) as usize,
                register: olt@.last().register,
            },
        ),
    ensures
        nlt.inv(),
        nlt.separated(),
        nlt@.len() == olt@.len(),
        forall|j: int|
            0 <= j < nlt@.len() ==> (#[trigger] nlt@[j]).end <= i + 1 && nlt@[j].register is None,
        forall|j: int| #[trigger] nlt.covers(j) <==> (olt.covers(j) || j == i),
{
    let last = olt@.len() - 1;
    assert forall|j: int| #[trigger] nlt.covers(j) implies (olt.covers(j) || j == i) by {
        let kk = choose|kk: int| 0 <= kk < nlt@.len() && (#[trigger] nlt@[kk]).covers(j);
        if kk < last {
            assert(olt@[kk].covers(j));
        } else if j != i {
            assert(olt@[last].covers(j));
        }
    }
    assert forall|j: int| olt.covers(j) || j == i implies #[trigger] nlt.covers(j) by {
        if olt.covers(j) {
            let kk = choose|kk: int| 0 <= kk < olt@.len() && (#[trigger] olt@[kk]).covers(j);
            assert(nlt@[kk].covers(j));
        } else {
            assert(olt@[last].start < olt@[last].end);
            assert(nlt@[last].covers(j));
        }
    }
}

/// Appending a fresh one-instruction run at `i` after a lifetime that ends
/// strictly before `i` covers exactly the old positions plus `i`.
#[verifier::rlimit(100)]
#[verifier::spinoff_prover]
proof fn lemma_lifetime_push(olt: Lifetime, nlt: Lifetime, i: int)
    requires
        olt.inv(),
        olt.separated(),
        olt@.len() > 0,
        olt@.last().end < i,
        0 <= i < usize::MAX,
        forall|j: int| 0 <= j < olt@.len() ==> (#[trigger] olt@[j]).end <= i,
        forall|j: int| 0 <= j < olt@.len() ==> (#[trigger] olt@[j]).register is None,
        nlt@ == olt@.push(Interval { start: i as usize, end: (i + 1) as usize, register: None }),
    ensures
        nlt.inv(),
        nlt.separated(),
        nlt@.len() == olt@.len() + 1,
        forall|j: int|
            0 <= j < nlt@.len() ==> (#[trigger] nlt@[j]).end <= i + 1 && nlt@[j].register is None,
        forall|j: int| #[trigger] nlt.covers(j) <==> (olt.covers(j) || j == i),
{
    let last = olt@.len() as int;
    assert forall|j: int| #[trigger] nlt.covers(j) implies (olt.covers(j) || j == i) by {
        let kk = choose|kk: int| 0 <= kk < nlt@.len() && (#[trigger] nlt@[kk]).covers(j);
        if kk < last {
            assert(olt@[kk].covers(j));
        }
    }
    assert forall|j: int| olt.covers(j) || j == i implies #[trigger] nlt.covers(j) by {
        if olt.covers(j) {
            let kk = choose|kk: int| 0 <= kk < olt@.len() && (#[trigger] olt@[kk]).covers(j);
            assert(nlt@[kk].covers(j));
        } else {
            assert(nlt@[last].covers(j));
        }
    }
    assert forall|k: int| 0 <= k < nlt@.len() - 1 implies (#[trigger] nlt@[k]).end < nlt@[k
        + 1].start by {
        if k + 1 < last {
            assert(olt@[k].end < olt@[k + 1].start);
        } else {
            assert(nlt@[k] == olt@.last());
        }
    }
}

/// Recording the `m`-th use of instruction `i` by updating the entry that
/// already exists for it preserves the mid-instruction invariants.
#[verifier::rlimit(100)]
proof fn lemma_table_update(
    t1: LifetimeMap,
    t2: LifetimeMap,
    ops: Seq<Operation>,
    uses: Seq<VirtualReg>,
    i: int,
    m: int,
    k: int,
)
    requires
        0 <= k < t1@.len(),
        0 <= i,
        0 <= m < uses.len(),
        t2@ == t1@.update(k, (t1@[k].0, t2@[k].1)),
        t1.sorted(),
        lifetimes_wf_entries(t1, i + 1),
        mid_exact(t1, ops, uses, i, m),
        mid_dom(t1, ops, uses, i, m),
        uses[m].0 == t1@[k].0.0,
        t2@[k].1.inv(),
        t2@[k].1.separated(),
        t2@[k].1@.len() > 0,
        forall|j: int|
            0 <= j < t2@[k].1@.len() ==> (#[trigger] t2@[k].1@[j]).end <= i + 1 && t2@[k].1@[
                j].register is None,
        forall|j: int| #[trigger] t2@[k].1.covers(j) <==> (t1@[k].1.covers(j) || j == i),
    ensures
        t2.sorted(),
        lifetimes_wf_entries(t2, i + 1),
        mid_exact(t2, ops, uses, i, m + 1),
        mid_dom(t2, ops, uses, i, m + 1),
        t2@.len() == t1@.len(),
{
    let v = t1@[k].0.0;
    assert forall|kk: int, j: int| 0 <= kk < t2@.len() implies ((#[trigger] t2@[kk].1.covers(j))
        <==> ((0 <= j < i && ops[j].mentions(t2@[kk].0.0)) || (j == i && prefix_has_id(
        uses,
        m + 1,
        t2@[kk].0.0,
    )))) by {
        assert(prefix_has_id(uses, m + 1, uses[m].0));
        if kk != k {
            assert(t2@[kk] == t1@[kk]);
            assert(t2@[kk].0.0 != v);
            assert(prefix_has_id(uses, m + 1, t2@[kk].0.0) == prefix_has_id(
                uses,
                m,
                t2@[kk].0.0,
            )) by {
                if prefix_has_id(uses, m + 1, t2@[kk].0.0) {
                    let mm = choose|mm: int|
                        0 <= mm < m + 1 && (#[trigger] uses[mm]).0 == t2@[kk].0.0;
                    assert(mm < m);
                }
            }
            assert(t1@[kk].1.covers(j) <==> ((0 <= j < i && ops[j].mentions(t1@[kk].0.0)) || (j == i
                && prefix_has_id(uses, m, t1@[kk].0.0))));
        } else {
            assert(t1@[k].1.covers(j) <==> ((0 <= j < i && ops[j].mentions(v)) || (j == i
                && prefix_has_id(uses, m, v))));
        }
    }
    assert forall|vv: u32| #[trigger] t2.dom_has(vv) <==> ((exists|j: int|
        0 <= j < i && (#[trigger] ops[j]).mentions(vv)) || prefix_has_id(uses, m + 1, vv)) by {
        assert(t2.dom_has(vv) == t1.dom_has(vv)) by {
            if t2.dom_has(vv) {
                let kk = choose|kk: int| 0 <= kk < t2@.len() && (#[trigger] t2@[kk]).0.0 == vv;
                assert(t1@[kk].0.0 == vv);
                assert(t1.dom_has(vv));
            }
            if t1.dom_has(vv) {
                let kk = choose|kk: int| 0 <= kk < t1@.len() && (#[trigger] t1@[kk]).0.0 == vv;
                assert(t2@[kk].0.0 == vv);
                assert(t2.dom_has(vv));
            }
        }
        assert(prefix_has_id(uses, m + 1, vv) == (prefix_has_id(uses, m, vv) || uses[m].0 == vv))
            by {
            if prefix_has_id(uses, m + 1, vv) {
                let mm = choose|mm: int| 0 <= mm < m + 1 && (#[trigger] uses[mm]).0 == vv;
                if mm < m {
                    assert(prefix_has_id(uses, m, vv));
                }
            }
            if prefix_has_id(uses, m, vv) {
                let mm = choose|mm: int| 0 <= mm < m && (#[trigger] uses[mm]).0 == vv;
                assert(prefix_has_id(uses, m + 1, vv));
            }
            if uses[m].0 == vv {
                assert(prefix_has_id(uses, m + 1, vv));
            }
        }
        if uses[m].0 == vv {
            assert(t1@[k].0.0 == vv);
            assert(t1.dom_has(vv));
        }
    }
}

/// Recording the `m`-th use of instruction `i` by inserting a fresh entry
/// preserves the mid-instruction invariants.
#[verifier::rlimit(100)]
proof fn lemma_table_insert(
    t1: LifetimeMap,
    t2: LifetimeMap,
    ops: Seq<Operation>,
    uses: Seq<VirtualReg>,
    i: int,
    m: int,
    p: int,
    flt: Lifetime,
)
    requires
        0 <= i,
        0 <= m < uses.len(),
        0 <= p <= t1@.len(),
        t2@ == t1@.insert(p, (VirtualReg(uses[m].0), flt)),
        t2.sorted(),
        lifetimes_wf_entries(t1, i + 1),
        mid_exact(t1, ops, uses, i, m),
        mid_dom(t1, ops, uses, i, m),
        !t1.dom_has(uses[m].0),
        flt.inv(),
        flt.separated(),
        flt@.len() == 1,
        flt@[0] == (Interval { start: i as usize, end: (i + 1) as usize, register: None }),
        0 <= i < usize::MAX,
    ensures
        lifetimes_wf_entries(t2, i + 1),
        mid_exact(t2, ops, uses, i, m + 1),
        mid_dom(t2, ops, uses, i, m + 1),
        t2@.len() == t1@.len() + 1,
{
    let v = uses[m].0;
    assert forall|j: int| #[trigger] flt.covers(j) <==> j == i by {
        if flt.covers(j) {
            let kk = choose|kk: int| 0 <= kk < flt@.len() && (#[trigger] flt@[kk]).covers(j);
            assert(kk == 0);
        }
        if j == i {
            assert(flt@[0].covers(j));
        }
    }
    // v was never mentioned before instruction i, and is not among the first m uses
    assert(!(exists|j: int| 0 <= j < i && (#[trigger] ops[j]).mentions(v)));
    assert(!prefix_has_id(uses, m, v));
    assert forall|kk: int, j: int| 0 <= kk < t2@.len() implies ((#[trigger] t2@[kk].1.covers(j))
        <==> ((0 <= j < i && ops[j].mentions(t2@[kk].0.0)) || (j == i && prefix_has_id(
        uses,
        m + 1,
        t2@[kk].0.0,
    )))) by {
        assert(prefix_has_id(uses, m + 1, v));
        if kk < p {
            assert(t2@[kk] == t1@[kk]);
            lemma_prefix_step(t1, uses, m, kk);
            assert(t1@[kk].1.covers(j) <==> ((0 <= j < i && ops[j].mentions(t1@[kk].0.0)) || (j == i
                && prefix_has_id(uses, m, t1@[kk].0.0))));
        } else if kk == p {
            assert(t2@[kk] == (VirtualReg(v), flt));
            if 0 <= j < i && ops[j].mentions(v) {
                assert(false);
            }
        } else {
            assert(t2@[kk] == t1@[kk - 1]);
            lemma_prefix_step(t1, uses, m, kk - 1);
            assert(t1@[kk - 1].1.covers(j) <==> ((0 <= j < i && ops[j].mentions(t1@[kk - 1].0.0))
                || (j == i && prefix_has_id(uses, m, t1@[kk - 1].0.0))));
        }
    }
    assert forall|vv: u32| #[trigger] t2.dom_has(vv) <==> ((exists|j: int|
        0 <= j < i && (#[trigger] ops[j]).mentions(vv)) || prefix_has_id(uses, m + 1, vv)) by {
        if t2.dom_has(vv) {
            let kk = choose|kk: int| 0 <= kk < t2@.len() && (#[trigger] t2@[kk]).0.0 == vv;
            if kk < p {
                assert(t1@[kk].0.0 == vv);
                assert(t1.dom_has(vv));
            } else if kk > p {
                assert(t1@[kk - 1].0.0 == vv);
                assert(t1.dom_has(vv));
            } else {
                assert(vv == v);
                assert(prefix_has_id(uses, m + 1, vv));
            }
        } else {
            if exists|j: int| 0 <= j < i && (#[trigger] ops[j]).mentions(vv) {
                assert(t1.dom_has(vv));
                let kk = choose|kk: int| 0 <= kk < t1@.len() && (#[trigger] t1@[kk]).0.0 == vv;
                if kk < p {
                    assert(t2@[kk].0.0 == vv);
                } else {
                    assert(t2@[kk + 1].0.0 == vv);
                }
                assert(t2.dom_has(vv));
            }
            if prefix_has_id(uses, m + 1, vv) {
                let mm = choose|mm: int| 0 <= mm < m + 1 && (#[trigger] uses[mm]).0 == vv;
                if mm == m {
                    assert(t2@[p].0.0 == vv);
                    assert(t2.dom_has(vv));
                } else {
                    assert(prefix_has_id(uses, m, vv));
                    assert(t1.dom_has(vv));
                    let kk = choose|kk: int| 0 <= kk < t1@.len() && (#[trigger] t1@[kk]).0.0 == vv;
                    if kk < p {
                        assert(t2@[kk].0.0 == vv);
                    } else {
                        assert(t2@[kk + 1].0.0 == vv);
                    }
                    assert(t2.dom_has(vv));
                }
            }
        }
    }
    assert forall|kk: int| 0 <= kk < t2@.len() implies {
        &&& (#[trigger] t2@[kk]).1.inv()
        &&& t2@[kk].1.separated()
        &&& t2@[kk].1@.len() > 0
        &&& forall|j: int|
            0 <= j < t2@[kk].1@.len() ==> (#[trigger] t2@[kk].1@[j]).end <= i + 1 && t2@[kk].1@[
                j].register is None
    } by {
        if kk < p {
            assert(t2@[kk] == t1@[kk]);
        } else if kk > p {
            assert(t2@[kk] == t1@[kk - 1]);
        }
    }
}

/// A helper: the first `m` uses do not change when one more is considered,
/// for an id that is not the `m`-th use.
proof fn lemma_prefix_step(t1: LifetimeMap, uses: Seq<VirtualReg>, m: int, kk: int)
    requires
        0 <= m < uses.len(),
        0 <= kk < t1@.len(),
        !t1.dom_has(uses[m].0) || t1@[kk].0.0 != uses[m].0,
    ensures
        prefix_has_id(uses, m + 1, t1@[kk].0.0) == prefix_has_id(uses, m, t1@[kk].0.0),
{
    let v = t1@[kk].0.0;
    if t1@[kk].0.0 == uses[m].0 {
        assert(t1.dom_has(uses[m].0));
    }
    if prefix_has_id(uses, m + 1, v) {
        let mm = choose|mm: int| 0 <= mm < m + 1 && (#[trigger] uses[mm]).0 == v;
        assert(mm < m);
        assert(prefix_has_id(uses, m, v));
    }
    if prefix_has_id(uses, m, v) {
        let mm = choose|mm: int| 0 <= mm < m && (#[trigger] uses[mm]).0 == v;
        assert(prefix_has_id(uses, m + 1, v));
    }
}

/// The per-entry structural facts of `lifetimes_wf`, separated from
/// sortedness so that lemmas can pass them around.
pub open spec fn lifetimes_wf_entries(r: LifetimeMap, upto: int) -> bool {
    forall|k: int|
        0 <= k < r@.len() ==> {
            &&& (#[trigger] r@[k]).1.inv()
            &&& r@[k].1.separated()
            &&& r@[k].1@.len() > 0
            &&& forall|j: int|
                0 <= j < r@[k].1@.len() ==> (#[trigger] r@[k].1@[j]).end <= upto && r@[k].1@[
                    j].register is None
        }
}



/// A value an operation reads: an immediate or a virtual register.
#[derive(Debug, Clone, Copy)]
pub enum SourceVal {
    Immediate(i64),
    VReg(VirtualReg),
}

impl SourceVal {
    pub open spec fn reg_spec(self) -> Option<VirtualReg> {
        match self {
            SourceVal::VReg(vreg) => Some(vreg),
            SourceVal::Immediate(_) => None,
        }
    }

    /// True when this source value reads the virtual register `v`.
    pub open spec fn mentions(self, v: u32) -> bool {
        match self {
            SourceVal::VReg(vreg) => vreg.0 == v,
            SourceVal::Immediate(_) => false,
        }
    }

    /// Returns the virtual register if the source value is a register.
    pub fn reg(&self) -> (r: Option<VirtualReg>)
        ensures
            r == self.reg_spec(),
    {
        match self {
            SourceVal::VReg(vreg) => Some(*vreg),
            SourceVal::Immediate(_) => None,
        }
    }
}

pub type Op = Operation;

pub enum Operation {
    Assign { src: SourceVal, dest: VirtualReg },
    Add { a: SourceVal, b: SourceVal, dest: VirtualReg },
    Subtract { a: SourceVal, b: SourceVal, dest: VirtualReg },
    Multiply { a: VirtualReg, b: VirtualReg, dest: VirtualReg },
    Divide { a: SourceVal, b: SourceVal, dest: VirtualReg },
    Return { value: SourceVal },
    Call { function: String, dest: Option<VirtualReg> },
}

impl Operation {
    /// True when the operation reads or writes the virtual register `v`.
    pub open spec fn mentions(&self, v: u32) -> bool {
        match self {
            Operation::Assign { src, dest } => src.mentions(v) || dest.0 == v,
            Operation::Add { a, b, dest } => a.mentions(v) || b.mentions(v) || dest.0 == v,
            Operation::Subtract { a, b, dest } => a.mentions(v) || b.mentions(v) || dest.0 == v,
            Operation::Multiply { a, b, dest } => a.0 == v || b.0 == v || dest.0 == v,
            Operation::Divide { a, b, dest } => a.mentions(v) || b.mentions(v) || dest.0 == v,
            Operation::Return { value } => value.mentions(v),
            Operation::Call { function: _, dest } => match dest {
                Some(d) => d.0 == v,
                None => false,
            },
        }
    }

    /// Appends the virtual registers this operation mentions, sources and
    /// destination alike, without repeating one already in `out`.
    pub fn vregs_used(&self, out: &mut Vec<VirtualReg>)
        ensures
            old(out)@.len() <= final(out)@.len() <= old(out)@.len() + 3,
            forall|k: int| 0 <= k < old(out)@.len() ==> final(out)@[k] == old(out)@[k],
            forall|j: int, k: int|
                #![trigger final(out)@[j], final(out)@[k]]
                old(out)@.len() <= k < final(out)@.len() && 0 <= j < k ==> final(out)@[j]
                    != final(out)@[k],
            forall|v: u32|
                #[trigger] seq_has_id(final(out)@, v) <==> (seq_has_id(old(out)@, v)
                    || self.mentions(v)),
    {
        match self {
            Operation::Assign { src, dest } => {
                push_vreg_source(out, *src);
                push_vreg(out, *dest);
            },
            Operation::Add { a, b, dest } => {
                push_vreg_source(out, *a);
                push_vreg_source(out, *b);
                push_vreg(out, *dest);
            },
            Operation::Subtract { a, b, dest } => {
                push_vreg_source(out, *a);
                push_vreg_source(out, *b);
                push_vreg(out, *dest);
            },
            Operation::Multiply { a, b, dest } => {
                push_vreg(out, *a);
                push_vreg(out, *b);
                push_vreg(out, *dest);
            },
            Operation::Divide { a, b, dest } => {
                push_vreg_source(out, *a);
                push_vreg_source(out, *b);
                push_vreg(out, *dest);
            },
            Operation::Return { value } => {
                push_vreg_source(out, *value);
            },
            Operation::Call { function: _, dest } => {
                match dest {
                    Some(d) => push_vreg(out, *d),
                    None => (),
                }
            },
        }
    }
}

/// Appends `vreg` to `out` unless it is already there.
fn push_vreg(out: &mut Vec<VirtualReg>, vreg: VirtualReg)
    ensures
        (exists|k: int| 0 <= k < old(out)@.len() && old(out)@[k] == vreg) ==> final(out)@ == old(
            out,
        )@,
        !(exists|k: int| 0 <= k < old(out)@.len() && old(out)@[k] == vreg) ==> final(out)@ == old(
            out,
        )@.push(vreg),
        old(out)@.len() <= final(out)@.len() <= old(out)@.len() + 1,
        forall|k: int| 0 <= k < old(out)@.len() ==> final(out)@[k] == old(out)@[k],
            forall|j: int, k: int|
                #![trigger final(out)@[j], final(out)@[k]]
                old(out)@.len() <= k < final(out)@.len() && 0 <= j < k ==> final(out)@[j]
                    != final(out)@[k],
        forall|v: u32|
            #[trigger] seq_has_id(final(out)@, v) <==> (seq_has_id(old(out)@, v) || vreg.0 == v),
{
    let n = out.len();
    let mut i: usize = 0;
    while i < n
        invariant
            n == out@.len(),
            0 <= i <= n,
            forall|k: int| 0 <= k < i ==> out@[k] != vreg,
        decreases n - i,
    {
        if out[i].0 == vreg.0 {
            proof {
                assert(out@[i as int] == vreg);
                assert(seq_has_id(out@, vreg.0));
            }
            return ;
        }
        i += 1;
    }
    out.push(vreg);
    proof {
        let s = old(out)@.push(vreg);
        assert(out@ == s);
        assert(s[s.len() - 1] == vreg);
        assert forall|v: u32| #[trigger] seq_has_id(out@, v) <==> (seq_has_id(old(out)@, v)
            || vreg.0 == v) by {
            if seq_has_id(out@, v) {
                let k = choose|k: int| 0 <= k < s.len() && s[k].0 == v;
                if k < old(out)@.len() {
                    assert(old(out)@[k].0 == v);
                    assert(seq_has_id(old(out)@, v));
                }
            }
            if seq_has_id(old(out)@, v) {
                let k = choose|k: int| 0 <= k < old(out)@.len() && old(out)@[k].0 == v;
                assert(s[k].0 == v);
                assert(seq_has_id(out@, v));
            }
            if vreg.0 == v {
                assert(s[s.len() - 1].0 == v);
                assert(seq_has_id(out@, v));
            }
        }
    }
}

/// Appends the register a source value reads, if any and not already there.
fn push_vreg_source(out: &mut Vec<VirtualReg>, src: SourceVal)
    ensures
        old(out)@.len() <= final(out)@.len() <= old(out)@.len() + 1,
        forall|k: int| 0 <= k < old(out)@.len() ==> final(out)@[k] == old(out)@[k],
            forall|j: int, k: int|
                #![trigger final(out)@[j], final(out)@[k]]
                old(out)@.len() <= k < final(out)@.len() && 0 <= j < k ==> final(out)@[j]
                    != final(out)@[k],
        forall|v: u32|
            #[trigger] seq_has_id(final(out)@, v) <==> (seq_has_id(old(out)@, v) || src.mentions(
                v,
            )),
{
    match src {
        SourceVal::VReg(vreg) => push_vreg(out, vreg),
        SourceVal::Immediate(_) => (),
    }
}

} // verus!
