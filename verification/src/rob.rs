//! The reorder buffer: instructions in program order until they retire.
use crate::inst::{Inst, Tag, Tagged};
use crate::queue::Queue;
use vstd::prelude::*;

verus! {

#[derive(Debug, Copy, Clone, PartialEq, Eq, Structural)]
pub enum RobStatus {
    Executing,
    Executed,
}

#[derive(Debug, Copy, Clone)]
pub struct RobEntry {
    pub tag: Tag,
    pub inst: Inst,
    pub status: RobStatus,
}

#[derive(Debug)]
pub struct ReorderBuffer {
    rob: Queue<RobEntry>,
}

impl View for ReorderBuffer {
    type V = Seq<RobEntry>;

    closed spec fn view(&self) -> Seq<RobEntry> {
        self.rob@
    }
}

/// `s` holds an entry tagged `tag`.
pub open spec fn has_tag(s: Seq<RobEntry>, tag: Tag) -> bool {
    exists|i: int| 0 <= i < s.len() && s[i].tag == tag
}

/// The entries of `s` not younger than `tag`.
pub open spec fn not_after(s: Seq<RobEntry>, tag: Tag) -> Seq<RobEntry> {
    s.filter(|e: RobEntry| e.tag.0 <= tag.0)
}

/// Squashing younger entries twice squashes no more than once.
pub proof fn lemma_not_after_idempotent(s: Seq<RobEntry>, tag: Tag)
    ensures
        not_after(not_after(s, tag), tag) == not_after(s, tag),
    decreases s.len(),
{
    reveal(Seq::filter);
    if s.len() > 0 {
        lemma_not_after_idempotent(s.drop_last(), tag);
        let p = |e: RobEntry| e.tag.0 <= tag.0;
        if p(s.last()) {
            assert(not_after(s, tag) == not_after(s.drop_last(), tag).push(s.last()));
            assert(not_after(s, tag).drop_last() == not_after(s.drop_last(), tag));
        } else {
            assert(not_after(s, tag) == not_after(s.drop_last(), tag));
        }
    }
}

/// Squashing the entries younger than `tag` keeps the entry tagged `tag`.
pub proof fn lemma_not_after_keeps_tag(s: Seq<RobEntry>, tag: Tag)
    ensures
        has_tag(not_after(s, tag), tag) == has_tag(s, tag),
{
    broadcast use vstd::seq_lib::group_filter_ensures;

    let p = |e: RobEntry| e.tag.0 <= tag.0;
    let f = not_after(s, tag);
    if has_tag(s, tag) {
        let i = choose|i: int| 0 <= i < s.len() && s[i].tag == tag;
        assert(s.contains(s[i]));
        assert(f.contains(s[i]));
    }
    if has_tag(f, tag) {
        let i = choose|i: int| 0 <= i < f.len() && f[i].tag == tag;
        assert(f.contains(f[i]));
        s.lemma_filter_contains_rev(p, f[i]);
        assert(s.contains(f[i]));
    }
}

/// After squashing, no entry is younger than `tag`.
pub proof fn lemma_not_after_bound(s: Seq<RobEntry>, tag: Tag)
    ensures
        forall|i: int| 0 <= i < not_after(s, tag).len() ==> (#[trigger] not_after(s, tag)[i]).tag.0 <= tag.0,
{
    broadcast use vstd::seq_lib::group_filter_ensures;

    assert forall|i: int| 0 <= i < not_after(s, tag).len() implies (#[trigger] not_after(s, tag)[i]).tag.0 <= tag.0 by {
        let p = |e: RobEntry| e.tag.0 <= tag.0;
        assert(p(s.filter(p)[i]));
    }
}

impl ReorderBuffer {
    pub closed spec fn spec_capacity(&self) -> nat {
        self.rob.spec_capacity()
    }

    pub fn new(capacity: usize) -> (r: Self)
        ensures
            r@ == Seq::<RobEntry>::empty(),
            r.spec_capacity() == capacity,
    {
        Self { rob: Queue::new(capacity) }
    }

    pub fn is_full(&self) -> (r: bool)
        ensures
            r == (self@.len() >= self.spec_capacity()),
    {
        self.rob.is_full()
    }

    /// Whether the youngest entry is a `Halt`.
    pub fn last_is_halt(&self) -> (r: bool)
        ensures
            r == (self@.len() > 0 && self@.last().inst is Halt),
    {
        match self.rob.back() {
            Some(ent) => matches!(ent.inst, Inst::Halt),
            None => false,
        }
    }

    /// Enters `inst` as executing; hands it back when the buffer is full.
    #[must_use]
    pub fn try_push(&mut self, tag: Tag, inst: Inst) -> (r: Option<Inst>)
        ensures
            final(self).spec_capacity() == old(self).spec_capacity(),
            old(self)@.len() >= old(self).spec_capacity() ==> r == Some(inst) && final(self)@
                == old(self)@,
            old(self)@.len() < old(self).spec_capacity() ==> r is None && final(self)@ == old(
                self,
            )@.push(RobEntry { tag, inst, status: RobStatus::Executing }),
    {
        match self.rob.try_push(RobEntry { tag, inst, status: RobStatus::Executing }) {
            Some(ent) => Some(ent.inst),
            None => None,
        }
    }

    /// Retires the oldest entry if it has executed.
    pub fn try_pop(&mut self) -> (r: Option<Tagged<Inst>>)
        ensures
            final(self).spec_capacity() == old(self).spec_capacity(),
            (old(self)@.len() > 0 && old(self)@[0].status == RobStatus::Executed) ==> (r matches Some(
                t,
            ) && t.tag == old(self)@[0].tag && t.inst == old(self)@[0].inst && final(self)@ == old(
                self,
            )@.drop_first()),
            !(old(self)@.len() > 0 && old(self)@[0].status == RobStatus::Executed) ==> r is None
                && final(self)@ == old(self)@,
    {
        let ready = match self.rob.front() {
            Some(ent) => ent.status == RobStatus::Executed,
            None => false,
        };
        if ready {
            match self.rob.try_pop() {
                Some(ent) => Some(Tagged { tag: ent.tag, inst: ent.inst }),
                None => None,
            }
        } else {
            None
        }
    }

    /// Drops every entry younger than `tag`.
    pub fn kill_tags_after(&mut self, tag: Tag)
        ensures
            final(self).spec_capacity() == old(self).spec_capacity(),
            final(self)@ == not_after(old(self)@, tag),
    {
        let keep = |ent: &RobEntry| -> (b: bool)
            ensures
                b == (ent.tag.0 <= tag.0),
            { ent.tag.0 <= tag.0 };
        self.rob.retain(keep, Ghost(|e: RobEntry| e.tag.0 <= tag.0));
    }

    /// Whether an entry is tagged `tag`.
    pub fn contains(&self, tag: Tag) -> (r: bool)
        ensures
            r == has_tag(self@, tag),
    {
        let n = self.rob.len();
        let mut i: usize = 0;
        while i < n
            invariant
                n == self@.len(),
                i <= n,
                forall|j: int| 0 <= j < i ==> self@[j].tag != tag,
            decreases n - i,
        {
            if self.rob.get(i).tag == tag {
                return true;
            }
            i = i + 1;
        }
        false
    }

    /// Marks the oldest entry tagged `tag` as executed.
    pub fn mark_complete(&mut self, tag: Tag)
        requires
            has_tag(old(self)@, tag),
        ensures
            final(self).spec_capacity() == old(self).spec_capacity(),
            exists|i: int|
                0 <= i < old(self)@.len() && old(self)@[i].tag == tag && (forall|j: int|
                    0 <= j < i ==> old(self)@[j].tag != tag) && final(self)@ == old(self)@.update(
                    i,
                    RobEntry { status: RobStatus::Executed, ..old(self)@[i] },
                ),
    {
        let n = self.rob.len();
        let mut i: usize = 0;
        while i < n
            invariant
                n == self@.len(),
                self@ == old(self)@,
                self.spec_capacity() == old(self).spec_capacity(),
                has_tag(self@, tag),
                i <= n,
                forall|j: int| 0 <= j < i ==> self@[j].tag != tag,
            decreases n - i,
        {
            let ent = *self.rob.get(i);
            if ent.tag == tag {
                self.rob.set(i, RobEntry { status: RobStatus::Executed, ..ent });
                return;
            }
            i = i + 1;
        }
    }
}

} // verus!
