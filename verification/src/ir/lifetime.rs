//! Lifetime intervals: for each virtual register, the half-open ranges of
//! instruction indices over which it holds a live value.

use vstd::prelude::*;

use crate::ir::VirtualReg;

verus! {

/// An interval where a variable is used continuously.
#[derive(Debug, Clone, Copy)]
pub struct Interval {
    /// First instruction index of the run.
    pub start: usize,
    /// One past the last instruction index of the run.
    pub end: usize,
    /// The physical register the allocator chose for this run, if any yet.
    pub register: Option<u32>,
}

impl Interval {
    /// True when `position` lies inside this half-open interval.
    pub open spec fn covers(self, position: int) -> bool {
        self.start <= position < self.end
    }
}

/// The lifetime of a single virtual register: an ordered list of disjoint
/// intervals in increasing order of their starts.
#[derive(Debug)]
pub struct Lifetime {
    intervals: Vec<Interval>,
}

impl View for Lifetime {
    type V = Seq<Interval>;

    closed spec fn view(&self) -> Seq<Interval> {
        self.intervals@
    }
}

impl Default for Lifetime {
    fn default() -> (r: Lifetime)
        ensures
            r@.len() == 0,
    {
        Lifetime { intervals: Vec::new() }
    }
}

impl Lifetime {
    /// Every interval is non-empty, and intervals do not overlap and are
    /// stored in increasing order of their starts.
    pub open spec fn inv(self) -> bool {
        &&& forall|k: int| 0 <= k < self@.len() ==> (#[trigger] self@[k]).start < self@[k].end
        &&& forall|k: int|
            0 <= k < self@.len() - 1 ==> (#[trigger] self@[k]).end <= self@[k + 1].start
    }

    /// Consecutive intervals are separated by at least one instruction:
    /// each interval is a maximal run.
    pub open spec fn separated(self) -> bool {
        forall|k: int| 0 <= k < self@.len() - 1 ==> (#[trigger] self@[k]).end < self@[k + 1].start
    }

    /// True when some interval of this lifetime covers `position`.
    pub open spec fn covers(self, position: int) -> bool {
        exists|k: int| 0 <= k < self@.len() && (#[trigger] self@[k]).covers(position)
    }

    /// Under `inv`, any earlier interval ends no later than a later one starts.
    pub proof fn lemma_order(self, k1: int, k2: int)
        requires
            self.inv(),
            0 <= k1 < k2 < self@.len(),
        ensures
            self@[k1].end <= self@[k2].start,
        decreases k2 - k1,
    {
        if k1 + 1 < k2 {
            self.lemma_order(k1 + 1, k2);
        }
    }

    pub fn intervals(&self) -> (r: &Vec<Interval>)
        ensures
            r@ == self@,
    {
        &self.intervals
    }

    /// First usage of this variable.
    pub fn start(&self) -> (r: Option<usize>)
        ensures
            match r {
                Option::None => self@.len() == 0,
                Option::Some(s) => {
                    &&& exists|k: int| 0 <= k < self@.len() && (#[trigger] self@[k]).start == s
                    &&& forall|k: int| 0 <= k < self@.len() ==> s <= (#[trigger] self@[k]).start
                },
            },
    {
        if self.intervals.len() == 0 {
            return None;
        }
        let mut best: usize = self.intervals[0].start;
        let mut i: usize = 1;
        while i < self.intervals.len()
            invariant
                1 <= i <= self@.len(),
                exists|k: int| 0 <= k < i && (#[trigger] self@[k]).start == best,
                forall|k: int| 0 <= k < i ==> best <= (#[trigger] self@[k]).start,
            decreases self@.len() - i,
        {
            if self.intervals[i].start < best {
                best = self.intervals[i].start;
            }
            i += 1;
        }
        Some(best)
    }

    /// One past the last usage of this variable.
    pub fn end(&self) -> (r: Option<usize>)
        ensures
            match r {
                Option::None => self@.len() == 0,
                Option::Some(e) => {
                    &&& exists|k: int| 0 <= k < self@.len() && (#[trigger] self@[k]).end == e
                    &&& forall|k: int| 0 <= k < self@.len() ==> (#[trigger] self@[k]).end <= e
                },
            },
    {
        if self.intervals.len() == 0 {
            return None;
        }
        let mut best: usize = self.intervals[0].end;
        let mut i: usize = 1;
        while i < self.intervals.len()
            invariant
                1 <= i <= self@.len(),
                exists|k: int| 0 <= k < i && (#[trigger] self@[k]).end == best,
                forall|k: int| 0 <= k < i ==> (#[trigger] self@[k]).end <= best,
            decreases self@.len() - i,
        {
            if self.intervals[i].end > best {
                best = self.intervals[i].end;
            }
            i += 1;
        }
        Some(best)
    }

    /// A reference to the interval active at this instruction, if any.
    pub fn at(&self, position: usize) -> (r: Option<&Interval>)
        ensures
            match r {
                Option::Some(iv) => iv.covers(position as int) && exists|k: int|
                    0 <= k < self@.len() && self@[k] == *iv,
                Option::None => !self.covers(position as int),
            },
    {
        let mut i: usize = 0;
        while i < self.intervals.len()
            invariant
                0 <= i <= self@.len(),
                forall|k: int| 0 <= k < i ==> !(#[trigger] self@[k]).covers(position as int),
            decreases self@.len() - i,
        {
            if self.intervals[i].start <= position && position < self.intervals[i].end {
                return Some(&self.intervals[i]);
            }
            i += 1;
        }
        None
    }

    /// A mutable reference to the interval active at this instruction, if
    /// any.
    pub fn at_mut(&mut self, position: usize) -> (r: Option<&mut Interval>)
        ensures
            match r {
                Option::Some(iv) => {
                    &&& old(self)@.len() == final(self)@.len()
                    &&& exists|kk: int|
                        0 <= kk < old(self)@.len() && *iv == old(self)@[kk] && final(self)@
                            == old(self)@.update(kk, *final(iv)) && old(self)@[kk].covers(
                            position as int,
                        )
                },
                Option::None => !old(self).covers(position as int) && final(self)@ == old(self)@,
            },
    {
        let n = self.intervals.len();
        let mut i: usize = 0;
        while i < n
            invariant
                n == self.intervals@.len(),
                self.intervals@ == old(self)@,
                0 <= i <= n,
                forall|kk: int| 0 <= kk < i ==> !(#[trigger] self.intervals@[kk]).covers(
                    position as int,
                ),
            decreases n - i,
        {
            if self.intervals[i].start <= position && position < self.intervals[i].end {
                return Some(&mut self.intervals[i]);
            }
            i += 1;
        }
        None
    }

    /// The index of the interval active at this instruction, if any.
    pub fn at_index(&self, position: usize) -> (r: Option<usize>)
        ensures
            match r {
                Option::Some(k) => 0 <= k < self@.len() && self@[k as int].covers(position as int),
                Option::None => !self.covers(position as int),
            },
    {
        let mut i: usize = 0;
        while i < self.intervals.len()
            invariant
                0 <= i <= self@.len(),
                forall|k: int| 0 <= k < i ==> !(#[trigger] self@[k]).covers(position as int),
            decreases self@.len() - i,
        {
            if self.intervals[i].start <= position && position < self.intervals[i].end {
                return Some(i);
            }
            i += 1;
        }
        None
    }

    /// Sets the register of every interval active at this position.
    ///
    /// If there is no interval at this position, nothing happens.
    pub fn set_register(&mut self, position: usize, register: Option<u32>)
        ensures
            final(self)@.len() == old(self)@.len(),
            forall|k: int|
                0 <= k < old(self)@.len() ==> {
                    &&& (#[trigger] final(self)@[k]).start == old(self)@[k].start
                    &&& final(self)@[k].end == old(self)@[k].end
                    &&& final(self)@[k].register == if old(self)@[k].covers(position as int) {
                        register
                    } else {
                        old(self)@[k].register
                    }
                },
    {
        let n = self.intervals.len();
        let mut i: usize = 0;
        while i < n
            invariant
                0 <= i <= n,
                n == self.intervals@.len(),
                forall|k: int|
                    i <= k < n ==> #[trigger] self.intervals@[k] == old(self)@[k],
                forall|k: int|
                    0 <= k < i ==> {
                        &&& (#[trigger] self.intervals@[k]).start == old(self)@[k].start
                        &&& self.intervals@[k].end == old(self)@[k].end
                        &&& self.intervals@[k].register == if old(self)@[k].covers(position as int) {
                            register
                        } else {
                            old(self)@[k].register
                        }
                    },
            decreases n - i,
        {
            if self.intervals[i].start <= position && position < self.intervals[i].end {
                self.intervals[i].register = register;
            }
            i += 1;
        }
    }

    /// The start of the first interval strictly after `position`, in storage
    /// order: the next use of this variable after the given instruction.
    pub fn next_use_after(&self, position: usize) -> (r: Option<usize>)
        ensures
            match r {
                Option::Some(s) => {
                    &&& s > position
                    &&& exists|k: int|
                        0 <= k < self@.len() && (#[trigger] self@[k]).start == s && (forall|j: int|
                            0 <= j < k ==> (#[trigger] self@[j]).start <= position)
                },
                Option::None => forall|k: int|
                    0 <= k < self@.len() ==> (#[trigger] self@[k]).start <= position,
            },
    {
        let mut i: usize = 0;
        while i < self.intervals.len()
            invariant
                0 <= i <= self@.len(),
                forall|k: int| 0 <= k < i ==> (#[trigger] self@[k]).start <= position,
            decreases self@.len() - i,
        {
            if self.intervals[i].start > position {
                return Some(self.intervals[i].start);
            }
            i += 1;
        }
        None
    }

    /// Inserts the interval such that the list keeps chronological order.
    ///
    /// The interval must be non-empty and must not overlap any stored one.
    pub fn insert_interval(&mut self, interval: Interval)
        requires
            old(self).inv(),
            interval.start < interval.end,
            forall|k: int|
                0 <= k < old(self)@.len() ==> ((#[trigger] old(self)@[k]).end <= interval.start
                    || interval.end <= old(self)@[k].start),
        ensures
            final(self).inv(),
            exists|p: int|
                0 <= p <= old(self)@.len() && final(self)@ == old(self)@.insert(p, interval),
    {
        let n = self.intervals.len();
        let mut i: usize = 0;
        while i < n && self.intervals[i].start <= interval.start
            invariant
                0 <= i <= n,
                n == self.intervals@.len(),
                self.intervals@ == old(self)@,
                forall|k: int| 0 <= k < i ==> (#[trigger] self.intervals@[k]).start <= interval.start,
            decreases n - i,
        {
            i += 1;
        }
        // `i` is the first index whose interval starts after the new one.
        proof {
            assert(i == n || old(self)@[i as int].start > interval.start);
        }
        proof {
            assert forall|k: int| 0 <= k < i implies (#[trigger] old(self)@[k]).end
                <= interval.start by {
                if interval.end <= old(self)@[k].start {
                    assert(old(self)@[k].start <= interval.start);
                    assert(false);
                }
            }
            assert forall|k: int| i <= k < old(self)@.len() implies interval.end <= (
            #[trigger] old(self)@[k]).start by {
                if k == i {
                    if old(self)@[k].end <= interval.start {
                        assert(old(self)@[k].start < old(self)@[k].end);
                        assert(false);
                    }
                } else {
                    old(self).lemma_order(i as int, k);
                    if old(self)@[k].end <= interval.start {
                        assert(old(self)@[i as int].start < old(self)@[i as int].end);
                        assert(old(self)@[i as int].end <= old(self)@[k].start);
                        assert(false);
                    }
                }
            }
        }
        self.intervals.insert(i, interval);
        proof {
            let s = old(self)@.insert(i as int, interval);
            assert(self.intervals@ == s);
            assert forall|k: int| 0 <= k < s.len() - 1 implies (#[trigger] s[k]).end <= s[k
                + 1].start by {
                if k + 1 < i {
                    assert(s[k] == old(self)@[k]);
                    assert(s[k + 1] == old(self)@[k + 1]);
                } else if k + 1 == i {
                    assert(s[k] == old(self)@[k]);
                    assert(s[k + 1] == interval);
                } else if k == i {
                    assert(s[k] == interval);
                    assert(s[k + 1] == old(self)@[k]);
                } else {
                    assert(s[k] == old(self)@[k - 1]);
                    assert(s[k + 1] == old(self)@[k]);
                }
            }
        }
    }
}

/// Helpers used by the liveness pass to grow a lifetime run by run.
impl Lifetime {
    /// A lifetime with one fresh run `[start, start + 1)`.
    pub(crate) fn new_run(start: usize) -> (r: Lifetime)
        requires
            start < usize::MAX,
        ensures
            r@.len() == 1,
            r@[0] == (Interval { start, end: (start + 1) as usize, register: None }),
    {
        let mut intervals: Vec<Interval> = Vec::new();
        intervals.push(Interval { start, end: start + 1, register: None });
        Lifetime { intervals }
    }

    /// The end of the last interval.
    pub(crate) fn last_end(&self) -> (r: usize)
        requires
            self@.len() > 0,
        ensures
            r == self@.last().end,
    {
        self.intervals[self.intervals.len() - 1].end
    }

    /// Extends the last interval to end at `new_end`.
    pub(crate) fn extend_last(&mut self, new_end: usize)
        requires
            old(self)@.len() > 0,
        ensures
            final(self)@ == old(self)@.update(
                old(self)@.len() - 1,
                Interval {
                    start: old(self)@.last().start,
                    end: new_end,
                    register: old(self)@.last().register,
                },
            ),
    {
        let k = self.intervals.len() - 1;
        self.intervals[k].end = new_end;
    }

    /// Appends a fresh run `[start, start + 1)` after the existing intervals.
    pub(crate) fn push_run(&mut self, start: usize)
        requires
            start < usize::MAX,
        ensures
            final(self)@ == old(self)@.push(
                Interval { start, end: (start + 1) as usize, register: None },
            ),
    {
        self.intervals.push(Interval { start, end: start + 1, register: None });
    }
}

/// A registry mapping each virtual register of a block to its lifetime,
/// kept sorted by ascending register id.
pub struct LifetimeMap {
    entries: Vec<(VirtualReg, Lifetime)>,
}

impl View for LifetimeMap {
    type V = Seq<(VirtualReg, Lifetime)>;

    closed spec fn view(&self) -> Seq<(VirtualReg, Lifetime)> {
        self.entries@
    }
}

impl LifetimeMap {
    /// Entries are in strictly increasing order of register id, so every
    /// register appears at most once.
    pub open spec fn sorted(self) -> bool {
        forall|k1: int, k2: int|
            0 <= k1 < k2 < self@.len() ==> (#[trigger] self@[k1]).0.0 < (#[trigger] self@[k2]).0.0
    }

    /// True when the registry has an entry for register id `v`.
    pub open spec fn dom_has(self, v: u32) -> bool {
        exists|k: int| 0 <= k < self@.len() && (#[trigger] self@[k]).0.0 == v
    }

    /// The index of the entry for `v`.
    pub open spec fn idx_of(self, v: u32) -> int {
        choose|k: int| 0 <= k < self@.len() && (#[trigger] self@[k]).0.0 == v
    }

    /// The lifetime stored for register id `v`.
    pub open spec fn get(self, v: u32) -> Lifetime {
        self@[self.idx_of(v)].1
    }

    /// In a sorted registry the entry index for an id is unique.
    pub proof fn lemma_idx(self, k: int, v: u32)
        requires
            self.sorted(),
            0 <= k < self@.len(),
            self@[k].0.0 == v,
        ensures
            self.idx_of(v) == k,
            self.dom_has(v),
            self.get(v) == self@[k].1,
    {
        let j = self.idx_of(v);
        assert(self.dom_has(v));
        if j < k {
            assert(self@[j].0.0 < self@[k].0.0);
        } else if j > k {
            assert(self@[k].0.0 < self@[j].0.0);
        }
    }

    pub fn new() -> (r: LifetimeMap)
        ensures
            r@.len() == 0,
            r.sorted(),
    {
        LifetimeMap { entries: Vec::new() }
    }

    pub fn len(&self) -> (r: usize)
        ensures
            r == self@.len(),
    {
        self.entries.len()
    }

    pub fn entries(&self) -> (r: &Vec<(VirtualReg, Lifetime)>)
        ensures
            r@ == self@,
    {
        &self.entries
    }

    /// Finds the entry index for register id `v` by linear scan.
    pub fn find_index(&self, v: u32) -> (r: Option<usize>)
        ensures
            match r {
                Option::Some(k) => 0 <= k < self@.len() && self@[k as int].0.0 == v,
                Option::None => !self.dom_has(v),
            },
    {
        let mut i: usize = 0;
        while i < self.entries.len()
            invariant
                0 <= i <= self@.len(),
                forall|k: int| 0 <= k < i ==> (#[trigger] self@[k]).0.0 != v,
            decreases self@.len() - i,
        {
            if self.entries[i].0.0 == v {
                return Some(i);
            }
            i += 1;
        }
        None
    }

    /// A shared reference to the lifetime stored at entry `k`.
    pub fn lifetime_at(&self, k: usize) -> (r: &Lifetime)
        requires
            k < self@.len(),
        ensures
            *r == self@[k as int].1,
    {
        &self.entries[k].1
    }

    /// The register id stored at entry `k`.
    pub fn vreg_at(&self, k: usize) -> (r: VirtualReg)
        requires
            k < self@.len(),
        ensures
            r == self@[k as int].0,
    {
        self.entries[k].0
    }

    /// A mutable reference to the lifetime stored at entry `k`.
    pub(crate) fn lifetime_at_mut(&mut self, k: usize) -> (r: &mut Lifetime)
        requires
            k < old(self)@.len(),
        ensures
            *r == old(self)@[k as int].1,
            final(self)@ == old(self)@.update(k as int, (old(self)@[k as int].0, *final(r))),
    {
        &mut self.entries[k].1
    }

    /// Inserts an entry for a register id not yet present, keeping the order.
    pub(crate) fn insert_entry(&mut self, v: VirtualReg, lifetime: Lifetime) -> (p: usize)
        requires
            old(self).sorted(),
            !old(self).dom_has(v.0),
        ensures
            final(self).sorted(),
            0 <= p <= old(self)@.len(),
            final(self)@ == old(self)@.insert(p as int, (v, lifetime)),
            forall|j: int| 0 <= j < p ==> (#[trigger] old(self)@[j]).0.0 < v.0,
            forall|j: int| p <= j < old(self)@.len() ==> v.0 < (#[trigger] old(self)@[j]).0.0,
    {
        let n = self.entries.len();
        let mut i: usize = 0;
        while i < n && self.entries[i].0.0 < v.0
            invariant
                0 <= i <= n,
                n == self.entries@.len(),
                self.entries@ == old(self)@,
                forall|k: int| 0 <= k < i ==> (#[trigger] self.entries@[k]).0.0 < v.0,
            decreases n - i,
        {
            i += 1;
        }
        proof {
            assert forall|j: int| i <= j < old(self)@.len() implies v.0 < (
            #[trigger] old(self)@[j]).0.0 by {
                if old(self)@[i as int].0.0 == v.0 {
                    assert(old(self).dom_has(v.0));
                }
                if j > i {
                    assert(old(self)@[i as int].0.0 < old(self)@[j].0.0);
                }
            }
        }
        self.entries.insert(i, (v, lifetime));
        proof {
            let s = old(self)@.insert(i as int, (v, lifetime));
            assert(self.entries@ == s);
            assert forall|k1: int, k2: int| 0 <= k1 < k2 < s.len() implies (#[trigger] s[k1]).0.0
                < (#[trigger] s[k2]).0.0 by {
                if k1 < i && k2 < i {
                } else if k1 < i && k2 == i {
                } else if k1 < i && k2 > i {
                    assert(s[k2] == old(self)@[k2 - 1]);
                } else if k1 == i {
                    assert(s[k2] == old(self)@[k2 - 1]);
                } else {
                    assert(s[k1] == old(self)@[k1 - 1]);
                    assert(s[k2] == old(self)@[k2 - 1]);
                }
            }
        }
        i
    }
}

} // verus!
