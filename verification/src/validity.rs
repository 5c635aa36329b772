//! Validity conditions: the branch choices of the control flow under which
//! an edge of the borrow graph was established. Joining two conditions keeps
//! the choices of both.
use vstd::prelude::*;
use crate::mir::BasicBlock;

verus! {

/// A branch choice: control went from block `from` to its successor `to`.
#[derive(Clone, Copy, Debug, PartialEq, Eq, Structural)]
pub struct PathCondition {
    pub from: BasicBlock,
    pub to: BasicBlock,
}

/// The branch choices under which an edge is valid.
#[derive(Debug)]
pub struct ValidityConditions {
    pub choices: Vec<PathCondition>,
}

impl ValidityConditions {
    /// The branch choices, as a set.
    pub open spec fn view(&self) -> Set<PathCondition> {
        self.choices@.to_set()
    }

    /// No branch choice.
    pub fn new() -> (r: Self)
        ensures
            r.view() == Set::<PathCondition>::empty(),
    {
        let r = ValidityConditions { choices: Vec::new() };
        assert(r.view() =~= Set::<PathCondition>::empty());
        r
    }

    /// A copy of the conditions.
    pub fn dup(&self) -> (r: Self)
        ensures
            r.choices@ == self.choices@,
    {
        let mut v: Vec<PathCondition> = Vec::new();
        let mut i: usize = 0;
        while i < self.choices.len()
            invariant
                i <= self.choices@.len(),
                v@ == self.choices@.subrange(0, i as int),
            decreases self.choices.len() - i,
        {
            v.push(self.choices[i]);
            i = i + 1;
        }
        assert(v@ =~= self.choices@);
        ValidityConditions { choices: v }
    }

    /// Whether the two conditions hold the same choices.
    pub fn same(&self, other: &ValidityConditions) -> (b: bool)
        ensures
            b == (self.view() == other.view()),
    {
        let mut i: usize = 0;
        while i < self.choices.len()
            invariant
                i <= self.choices@.len(),
                forall|j: int| 0 <= j < i ==> other.view().contains(#[trigger] self.choices@[j]),
            decreases self.choices.len() - i,
        {
            if !other.contains(&self.choices[i]) {
                assert(self.view().contains(self.choices@[i as int]));
                return false;
            }
            i = i + 1;
        }
        let mut k: usize = 0;
        while k < other.choices.len()
            invariant
                k <= other.choices@.len(),
                forall|j: int| 0 <= j < self.choices@.len() ==> other.view().contains(#[trigger] self.choices@[j]),
                forall|j: int| 0 <= j < k ==> self.view().contains(#[trigger] other.choices@[j]),
            decreases other.choices.len() - k,
        {
            if !self.contains(&other.choices[k]) {
                assert(other.view().contains(other.choices@[k as int]));
                return false;
            }
            k = k + 1;
        }
        assert forall|x: PathCondition| self.view().contains(x) <==> other.view().contains(x) by {
            if self.view().contains(x) {
                let j = choose|j: int| 0 <= j < self.choices@.len() && self.choices@[j] == x;
            }
            if other.view().contains(x) {
                let j = choose|j: int| 0 <= j < other.choices@.len() && other.choices@[j] == x;
            }
        }
        assert(self.view() =~= other.view());
        true
    }

    /// Whether `pc` is among the choices.
    pub fn contains(&self, pc: &PathCondition) -> (b: bool)
        ensures
            b == self.view().contains(*pc),
    {
        let mut i: usize = 0;
        while i < self.choices.len()
            invariant
                i <= self.choices@.len(),
                forall|j: int| 0 <= j < i ==> self.choices@[j] != *pc,
            decreases self.choices.len() - i,
        {
            if self.choices[i] == *pc {
                assert(self.choices@.contains(*pc));
                return true;
            }
            i = i + 1;
        }
        false
    }

    /// Adds the choice `pc`; returns whether it was new.
    pub fn insert(&mut self, pc: PathCondition) -> (changed: bool)
        ensures
            final(self).view() == old(self).view().insert(pc),
            changed == !old(self).view().contains(pc),
    {
        if self.contains(&pc) {
            assert(self.view().insert(pc) =~= self.view());
            false
        } else {
            let ghost before = self.choices@;
            self.choices.push(pc);
            assert(self.choices@.to_set() =~= before.to_set().insert(pc)) by {
                assert forall|x: PathCondition| self.choices@.contains(x) <==> (before.contains(x) || x == pc) by {
                    if self.choices@.contains(x) {
                        let k = choose|k: int| 0 <= k < self.choices@.len() && self.choices@[k] == x;
                        if k < before.len() {
                            assert(before[k] == x);
                        }
                    }
                    if before.contains(x) {
                        let k = choose|k: int| 0 <= k < before.len() && before[k] == x;
                        assert(self.choices@[k] == x);
                    }
                    if x == pc {
                        assert(self.choices@[before.len() as int] == pc);
                    }
                }
            }
            true
        }
    }

    /// Joins `other` into these conditions: afterwards they hold the choices
    /// of both. Returns whether anything was added.
    pub fn join(&mut self, other: &ValidityConditions) -> (changed: bool)
        ensures
            final(self).view() == old(self).view() + other.view(),
            changed == !other.view().subset_of(old(self).view()),
    {
        let ghost before = self.view();
        let mut changed = false;
        let mut i: usize = 0;
        while i < other.choices.len()
            invariant
                i <= other.choices@.len(),
                self.view() == before + other.choices@.subrange(0, i as int).to_set(),
                changed == !other.choices@.subrange(0, i as int).to_set().subset_of(before),
            decreases other.choices.len() - i,
        {
            let pc = other.choices[i];
            let ghost pre = other.choices@.subrange(0, i as int);
            let ghost sub = other.choices@.subrange(0, i + 1);
            proof {
                assert(sub.to_set() =~= pre.to_set().insert(pc)) by {
                    assert forall|x: PathCondition| sub.contains(x) <==> (pre.contains(x) || x == pc) by {
                        if sub.contains(x) {
                            let k = choose|k: int| 0 <= k < sub.len() && sub[k] == x;
                            if k < i {
                                assert(pre[k] == x);
                            }
                        }
                        if pre.contains(x) {
                            let k = choose|k: int| 0 <= k < pre.len() && pre[k] == x;
                            assert(sub[k] == x);
                        }
                        if x == pc {
                            assert(sub[i as int] == pc);
                        }
                    }
                }
            }
            let added = self.insert(pc);
            changed = changed || added;
            proof {
                assert(self.view() =~= before + sub.to_set());
                if !added && pre.to_set().subset_of(before) {
                    assert(before.contains(pc));
                    assert(sub.to_set().subset_of(before));
                }
                if added {
                    assert(!before.contains(pc));
                    assert(sub.to_set().contains(pc));
                }
                if !pre.to_set().subset_of(before) {
                    let x = choose|x: PathCondition| pre.to_set().contains(x) && !before.contains(x);
                    assert(sub.to_set().contains(x));
                }
            }
            i = i + 1;
        }
        assert(other.choices@.subrange(0, other.choices@.len() as int) =~= other.choices@);
        changed
    }
}

} // verus!
