//! Sets of live SSA values, counted per register file.

use vstd::prelude::*;
use crate::regs::{PerRegFile, RegFile};
use crate::ir::SSAValue;

verus! {

/// How many values of `s` live in file `f`.
pub open spec fn count_file(s: Seq<SSAValue>, f: RegFile) -> nat
    decreases s.len(),
{
    if s.len() == 0 {
        0
    } else {
        count_file(s.drop_last(), f) + if s.last().file == f { 1nat } else { 0nat }
    }
}

pub proof fn lemma_count_concat(a: Seq<SSAValue>, b: Seq<SSAValue>, f: RegFile)
    ensures
        count_file(a + b, f) == count_file(a, f) + count_file(b, f),
    decreases b.len(),
{
    if b.len() == 0 {
        assert(a + b =~= a);
    } else {
        lemma_count_concat(a, b.drop_last(), f);
        assert((a + b).drop_last() =~= a + b.drop_last());
    }
}

proof fn lemma_count_remove(s: Seq<SSAValue>, i: int, f: RegFile)
    requires
        0 <= i < s.len(),
    ensures
        count_file(s.remove(i), f) + (if s[i].file == f { 1nat } else { 0nat }) == count_file(s, f),
{
    let a = s.subrange(0, i);
    let b = s.subrange(i + 1, s.len() as int);
    assert(s.remove(i) =~= a + b);
    assert(s =~= a + seq![s[i]] + b);
    lemma_count_concat(a, b, f);
    lemma_count_concat(a + seq![s[i]], b, f);
    lemma_count_concat(a, seq![s[i]], f);
    assert(seq![s[i]].drop_last() =~= Seq::<SSAValue>::empty());
    assert(seq![s[i]].last() == s[i]);
    assert(count_file(Seq::<SSAValue>::empty(), f) == 0);
    assert(count_file(seq![s[i]], f) == (if s[i].file == f { 1nat } else { 0nat }));
}

pub proof fn lemma_push_contains_usize(s: Seq<usize>, x: usize)
    ensures
        forall|v: usize| s.push(x).contains(v) <==> (s.contains(v) || v == x),
{
    assert forall|v: usize| s.push(x).contains(v) <==> (s.contains(v) || v == x) by {
        if s.contains(v) {
            let k = choose|k: int| 0 <= k < s.len() && s[k] == v;
            assert(s.push(x)[k] == v);
        }
        if v == x {
            assert(s.push(x)[s.len() as int] == v);
        }
        if s.push(x).contains(v) {
            let k = choose|k: int| 0 <= k < s.push(x).len() && s.push(x)[k] == v;
            if k < s.len() {
                assert(s[k] == v);
            }
        }
    }
}

pub proof fn lemma_push_contains(s: Seq<SSAValue>, x: SSAValue)
    ensures
        forall|v: SSAValue| s.push(x).contains(v) <==> (s.contains(v) || v == x),
{
    assert forall|v: SSAValue| s.push(x).contains(v) <==> (s.contains(v) || v == x) by {
        if s.contains(v) {
            let k = choose|k: int| 0 <= k < s.len() && s[k] == v;
            assert(s.push(x)[k] == v);
        }
        if v == x {
            assert(s.push(x)[s.len() as int] == v);
        }
        if s.push(x).contains(v) {
            let k = choose|k: int| 0 <= k < s.push(x).len() && s.push(x)[k] == v;
            if k < s.len() {
                assert(s[k] == v);
            }
        }
    }
}

proof fn lemma_remove_unique(s: Seq<SSAValue>, i: int)
    requires
        0 <= i < s.len(),
        s.no_duplicates(),
    ensures
        s.remove(i).no_duplicates(),
        forall|v: SSAValue| s.remove(i).contains(v) <==> (s.contains(v) && v != s[i]),
{
    let t = s.remove(i);
    assert forall|k: int| 0 <= k < t.len() implies t[k] == (if k < i { s[k] } else { s[k + 1] }) by {}
    assert forall|j: int, k: int| 0 <= j < t.len() && 0 <= k < t.len() && j != k implies t[j] != t[k] by {
        let sj = if j < i { j } else { j + 1 };
        let sk = if k < i { k } else { k + 1 };
        assert(t[j] == s[sj] && t[k] == s[sk]);
    }
    assert forall|v: SSAValue| t.contains(v) <==> (s.contains(v) && v != s[i]) by {
        if s.contains(v) && v != s[i] {
            let k = choose|k: int| 0 <= k < s.len() && s[k] == v;
            if k < i {
                assert(t[k] == v);
            } else {
                assert(k != i);
                assert(t[k - 1] == v);
            }
        }
        if t.contains(v) {
            let k = choose|k: int| 0 <= k < t.len() && t[k] == v;
            let sk = if k < i { k } else { k + 1 };
            assert(s[sk] == v);
            assert(sk != i);
        }
    }
}

/// A set of live SSA values.
#[derive(Clone, Debug)]
pub struct LiveSet {
    pub vals: Vec<SSAValue>,
}

impl LiveSet {
    pub open spec fn wf(&self) -> bool {
        self.vals@.no_duplicates()
    }

    pub open spec fn spec_contains(&self, ssa: SSAValue) -> bool {
        self.vals@.contains(ssa)
    }

    pub open spec fn spec_count(&self, f: RegFile) -> nat {
        count_file(self.vals@, f)
    }

    pub fn new() -> (r: LiveSet)
        ensures
            r.wf(),
            r.vals@ == Seq::<SSAValue>::empty(),
    {
        LiveSet { vals: Vec::new() }
    }

    /// The set of the values listed in `vals`; duplicates are dropped.
    pub fn from_vec(vals: &Vec<SSAValue>) -> (r: LiveSet)
        ensures
            r.wf(),
            forall|v: SSAValue| r.spec_contains(v) <==> vals@.contains(v),
    {
        let mut r = LiveSet::new();
        let mut i: usize = 0;
        while i < vals.len()
            invariant
                i <= vals@.len(),
                r.wf(),
                forall|v: SSAValue| r.spec_contains(v) <==> vals@.subrange(0, i as int).contains(v),
            decreases vals@.len() - i,
        {
            r.insert(vals[i]);
            proof {
                lemma_push_contains(vals@.subrange(0, i as int), vals@[i as int]);
            }
            assert(vals@.subrange(0, i + 1) =~= vals@.subrange(0, i as int).push(vals@[i as int]));
            i += 1;
        }
        assert(vals@.subrange(0, vals@.len() as int) =~= vals@);
        r
    }

    pub fn len(&self) -> (r: usize)
        ensures
            r == self.vals@.len(),
    {
        self.vals.len()
    }

    pub fn contains(&self, ssa: &SSAValue) -> (r: bool)
        ensures
            r == self.spec_contains(*ssa),
    {
        let mut i: usize = 0;
        while i < self.vals.len()
            invariant
                i <= self.vals@.len(),
                forall|j: int| 0 <= j < i ==> self.vals@[j] != *ssa,
            decreases self.vals@.len() - i,
        {
            if self.vals[i] == *ssa {
                return true;
            }
            i += 1;
        }
        false
    }

    /// Adds `ssa`; returns whether it was not already there.
    pub fn insert(&mut self, ssa: SSAValue) -> (r: bool)
        requires
            old(self).wf(),
        ensures
            final(self).wf(),
            r == !old(self).spec_contains(ssa),
            r ==> final(self).vals@ == old(self).vals@.push(ssa),
            !r ==> final(self).vals@ == old(self).vals@,
            forall|v: SSAValue| final(self).spec_contains(v) <==> (old(self).spec_contains(v) || v == ssa),
            forall|f: RegFile| #[trigger] final(self).spec_count(f) == old(self).spec_count(f)
                + if r && ssa.file == f { 1nat } else { 0nat },
    {
        if self.contains(&ssa) {
            return false;
        }
        self.vals.push(ssa);
        proof {
            lemma_push_contains(old(self).vals@, ssa);
            assert forall|f: RegFile| #[trigger] count_file(self.vals@, f) == count_file(old(self).vals@, f)
                + if ssa.file == f { 1nat } else { 0nat } by {
                assert(self.vals@.drop_last() =~= old(self).vals@);
            }
        }
        true
    }

    /// Removes `ssa`; returns whether it was there.
    pub fn remove(&mut self, ssa: &SSAValue) -> (r: bool)
        requires
            old(self).wf(),
        ensures
            final(self).wf(),
            r == old(self).spec_contains(*ssa),
            forall|v: SSAValue| final(self).spec_contains(v) <==> (old(self).spec_contains(v) && v != *ssa),
            forall|f: RegFile| #[trigger] final(self).spec_count(f) + (if r && ssa.file == f { 1nat } else { 0nat })
                == old(self).spec_count(f),
    {
        let mut i: usize = 0;
        while i < self.vals.len()
            invariant
                i <= self.vals@.len(),
                *self == *old(self),
                self.vals@ == old(self).vals@,
                self.wf(),
                forall|j: int| 0 <= j < i ==> self.vals@[j] != *ssa,
            decreases self.vals@.len() - i,
        {
            if self.vals[i] == *ssa {
                let ghost s = self.vals@;
                self.vals.remove(i);
                proof {
                    assert forall|f: RegFile| #[trigger] count_file(self.vals@, f) + (if ssa.file == f { 1nat } else { 0nat })
                        == count_file(s, f) by {
                        lemma_count_remove(s, i as int, f);
                    }
                    lemma_remove_unique(s, i as int);
                }
                return true;
            }
            i += 1;
        }
        false
    }

    pub fn clear(&mut self)
        ensures
            final(self).wf(),
            final(self).vals@ == Seq::<SSAValue>::empty(),
    {
        self.vals.clear();
    }

    /// How many live values are in file `f`.
    pub fn count(&self, f: RegFile) -> (r: usize)
        ensures
            r == self.spec_count(f),
    {
        let mut n: usize = 0;
        let mut i: usize = 0;
        while i < self.vals.len()
            invariant
                i <= self.vals@.len(),
                n == count_file(self.vals@.subrange(0, i as int), f),
                n <= i,
            decreases self.vals@.len() - i,
        {
            proof {
                assert(self.vals@.subrange(0, i + 1).drop_last() =~= self.vals@.subrange(0, i as int));
            }
            if self.vals[i].file == f {
                n += 1;
            }
            i += 1;
        }
        assert(self.vals@.subrange(0, i as int) =~= self.vals@);
        n
    }

    /// The live counts of every file, each capped at `COUNT_CAP`.
    pub open spec fn spec_counts(&self) -> PerRegFile<i64> {
        PerRegFile {
            gpr: capped_count(self.spec_count(RegFile::GPR)),
            ugpr: capped_count(self.spec_count(RegFile::UGPR)),
            pred: capped_count(self.spec_count(RegFile::Pred)),
            upred: capped_count(self.spec_count(RegFile::UPred)),
            carry: capped_count(self.spec_count(RegFile::Carry)),
            bar: capped_count(self.spec_count(RegFile::Bar)),
            mem: capped_count(self.spec_count(RegFile::Mem)),
        }
    }

    pub fn counts(&self) -> (r: PerRegFile<i64>)
        ensures
            r == self.spec_counts(),
            forall|f: RegFile| #[trigger] r.spec_get(f) == capped_count(self.spec_count(f)),
            counts_in_range(r),
    {
        PerRegFile {
            gpr: cap_count(self.count(RegFile::GPR)),
            ugpr: cap_count(self.count(RegFile::UGPR)),
            pred: cap_count(self.count(RegFile::Pred)),
            upred: cap_count(self.count(RegFile::UPred)),
            carry: cap_count(self.count(RegFile::Carry)),
            bar: cap_count(self.count(RegFile::Bar)),
            mem: cap_count(self.count(RegFile::Mem)),
        }
    }
}

/// Live counts are kept in signed 64-bit pressure arithmetic; a count this
/// large cannot occur in a real region and is held at the cap.
pub const COUNT_CAP: u64 = 0x1_0000_0000;

/// Every count is between 0 and the cap.
pub open spec fn counts_in_range(p: PerRegFile<i64>) -> bool {
    &&& 0 <= p.gpr <= COUNT_CAP
    &&& 0 <= p.ugpr <= COUNT_CAP
    &&& 0 <= p.pred <= COUNT_CAP
    &&& 0 <= p.upred <= COUNT_CAP
    &&& 0 <= p.carry <= COUNT_CAP
    &&& 0 <= p.bar <= COUNT_CAP
    &&& 0 <= p.mem <= COUNT_CAP
}

pub open spec fn capped_count(n: nat) -> i64 {
    if n > COUNT_CAP { COUNT_CAP as i64 } else { n as i64 }
}

pub fn cap_count(n: usize) -> (r: i64)
    ensures
        r == capped_count(n as nat),
{
    if n as u64 > COUNT_CAP { COUNT_CAP as i64 } else { n as i64 }
}

} // verus!
