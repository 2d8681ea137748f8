//! A register alias table: for each architectural register, its value or the
//! tag of the instruction that will produce it.
use crate::inst::{ArchReg, Tag};
use std::collections::HashMap;
use vstd::prelude::*;

verus! {

broadcast use vstd::std_specs::hash::group_hash_axioms;

#[derive(Debug, Copy, Clone, PartialEq, Eq, Structural)]
pub enum ValueOrTag {
    Valid(u32),
    Invalid(Tag),
}

#[derive(Debug)]
pub struct RegisterAliasTable {
    map: HashMap<usize, ValueOrTag>,
}

impl RegisterAliasTable {
    /// What the table says of `reg`: `zero` and unset registers are `Valid(0)`.
    pub closed spec fn lookup(&self, reg: ArchReg) -> ValueOrTag {
        if reg == ArchReg::Zero {
            ValueOrTag::Valid(0)
        } else if self.map@.contains_key(reg.spec_index() as usize) {
            self.map@[reg.spec_index() as usize]
        } else {
            ValueOrTag::Valid(0)
        }
    }

    /// A table holding the given values; a later entry for a register wins.
    pub fn new(initial_regs: Vec<(ArchReg, u32)>) -> (r: Self)
        ensures
            r.lookup(ArchReg::Zero) == ValueOrTag::Valid(0),
            forall|reg: ArchReg|
                reg != ArchReg::Zero ==> #[trigger] r.lookup(reg) == match last_value(initial_regs@, reg) {
                    Some(v) => ValueOrTag::Valid(v),
                    None => ValueOrTag::Valid(0),
                },
    {
        let mut map: HashMap<usize, ValueOrTag> = HashMap::new();
        let mut i: usize = 0;
        while i < initial_regs.len()
            invariant
                i <= initial_regs@.len(),
                forall|k: usize|
                    #[trigger] map@.contains_key(k) ==> exists|reg: ArchReg| reg.spec_index() == k,
                forall|reg: ArchReg|
                    #[trigger] map@.contains_key(reg.spec_index() as usize) == (last_value(
                        initial_regs@.take(i as int),
                        reg,
                    ) is Some),
                forall|reg: ArchReg|
                    map@.contains_key(reg.spec_index() as usize) ==> #[trigger] map@[reg.spec_index() as usize]
                        == ValueOrTag::Valid(last_value(initial_regs@.take(i as int), reg)->0),
            decreases initial_regs@.len() - i,
        {
            let (reg, v) = initial_regs[i];
            map.insert(reg.index(), ValueOrTag::Valid(v));
            proof {
                assert(initial_regs@.take(i + 1).drop_last() == initial_regs@.take(i as int));
                lemma_index_injective();
            }
            i = i + 1;
        }
        assert(initial_regs@.take(i as int) == initial_regs@);
        Self { map }
    }

    pub fn get(&self, reg: ArchReg) -> (r: ValueOrTag)
        ensures
            r == self.lookup(reg),
            reg == ArchReg::Zero ==> r == ValueOrTag::Valid(0),
    {
        if reg == ArchReg::Zero {
            return ValueOrTag::Valid(0);
        }
        match self.map.get(&reg.index()) {
            Some(v) => *v,
            None => ValueOrTag::Valid(0),
        }
    }

    /// Points `reg` at `tag` unless it already waits on a tag; returns
    /// whether it did already (and then changes nothing). `zero` is never renamed.
    pub fn rename(&mut self, reg: ArchReg, tag: Tag) -> (r: bool)
        ensures
            r == (reg != ArchReg::Zero && old(self).lookup(reg) is Invalid),
            r || reg == ArchReg::Zero ==> forall|x: ArchReg| #[trigger] final(self).lookup(x) == old(self).lookup(x),
            !r && reg != ArchReg::Zero ==> forall|x: ArchReg|
                #[trigger] final(self).lookup(x) == if x == reg {
                    ValueOrTag::Invalid(tag)
                } else {
                    old(self).lookup(x)
                },
    {
        if reg == ArchReg::Zero {
            return false;
        }
        if let Some(ValueOrTag::Invalid(_)) = self.map.get(&reg.index()) {
            return true;
        }
        self.map.insert(reg.index(), ValueOrTag::Invalid(tag));
        proof {
            lemma_index_injective();
        }
        false
    }

    /// Records the value of `reg` (ignored for `zero`).
    pub fn set_value(&mut self, reg: ArchReg, val: u32)
        ensures
            forall|x: ArchReg|
                #[trigger] final(self).lookup(x) == if x == reg && reg != ArchReg::Zero {
                    ValueOrTag::Valid(val)
                } else {
                    old(self).lookup(x)
                },
    {
        if reg == ArchReg::Zero {
            return;
        }
        self.map.insert(reg.index(), ValueOrTag::Valid(val));
        proof {
            lemma_index_injective();
        }
    }
}

/// The value of the last entry for `reg` in `s`.
pub open spec fn last_value(s: Seq<(ArchReg, u32)>, reg: ArchReg) -> Option<u32>
    decreases s.len(),
{
    if s.len() == 0 {
        None
    } else if s.last().0 == reg {
        Some(s.last().1)
    } else {
        last_value(s.drop_last(), reg)
    }
}

/// Distinct registers have distinct indices.
pub proof fn lemma_index_injective()
    ensures
        forall|a: ArchReg, b: ArchReg| #[trigger] a.spec_index() == #[trigger] b.spec_index() ==> a == b,
{
}

} // verus!
