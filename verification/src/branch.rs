//! Branch prediction: a saturating counter per branch for direct branches,
//! a branch target buffer and a return-address stack for indirect ones.
use crate::inst::{ArchReg, Inst, Pc, INST_SIZE};
use crate::tables::{
    counter_table, counter_table_get, counter_table_insert, counter_table_new, pc_table, pc_table_get,
    pc_table_insert, pc_table_new, CounterTable, PcTable,
};
use vstd::prelude::*;

verus! {

pub struct BranchPredictor {
    btb: PcTable,
    ras: Vec<Pc>,
    last_taken_map: CounterTable,
}

/// Number of bits of each direct-branch counter.
pub const NBITS: u32 = 2;

/// Counters run from `-COUNTER_MAX` to `COUNTER_MAX - 1`; non-negative means taken.
pub const COUNTER_MAX: i32 = 2;

/// The counter after an outcome: one step towards `taken`, saturating.
pub open spec fn next_counter(prev: Option<i32>, taken: bool) -> i32 {
    let s: int = match prev {
        Some(s) => if taken {
            s + 1
        } else {
            s - 1
        },
        None => if taken {
            0
        } else {
            -1
        },
    };
    if s < -2 {
        -2i32
    } else if s > 1 {
        1i32
    } else {
        s as i32
    }
}

/// A branch's first outcome leaves its counter in the weak state of that
/// outcome (0 taken, -1 not taken); later outcomes move it one step toward
/// the outcome, saturating at -2 and 1.
pub proof fn lemma_counter_steps(prev: Option<i32>, taken: bool)
    requires
        prev matches Some(c) ==> -2 <= c <= 1,
    ensures
        prev is None && taken ==> next_counter(prev, taken) == 0,
        prev is None && !taken ==> next_counter(prev, taken) == -1,
        prev matches Some(c) ==> (taken ==> next_counter(prev, taken) == if c == 1 {
            1
        } else {
            c + 1
        }),
        prev matches Some(c) ==> (!taken ==> next_counter(prev, taken) == if c == -2 {
            -2
        } else {
            c - 1
        }),
        -2 <= next_counter(prev, taken) <= 1,
        next_counter(prev, taken) >= 0 <==> (taken && (prev matches Some(c) ==> c >= -1)) || (!taken && (
        prev matches Some(c) && c == 1)),
{
}

impl BranchPredictor {
    /// The branch target buffer.
    pub closed spec fn btb(&self) -> Map<Pc, Pc> {
        pc_table(self.btb)
    }

    /// The return-address stack.
    pub closed spec fn ras(&self) -> Seq<Pc> {
        self.ras@
    }

    /// The direct-branch counters.
    pub closed spec fn counters(&self) -> Map<Pc, i32> {
        counter_table(self.last_taken_map)
    }

    /// Every counter lies in `-2..=1`.
    pub closed spec fn wf(&self) -> bool {
        forall|pc: Pc| #[trigger] counter_table(self.last_taken_map).contains_key(pc) ==> -2 <= counter_table(self.last_taken_map)[pc] <= 1
    }

    pub fn new() -> (r: Self)
        ensures
            r.wf(),
            r.btb() == Map::<Pc, Pc>::empty(),
            r.ras() == Seq::<Pc>::empty(),
            r.counters() == Map::<Pc, i32>::empty(),
    {
        Self { btb: pc_table_new(), ras: Vec::new(), last_taken_map: counter_table_new() }
    }

    /// Whether the branch at `pc` to `target` is predicted taken: by its
    /// counter once it has one, else taken exactly when it jumps backwards.
    pub open spec fn predicts_taken(&self, pc: Pc, target: Pc) -> bool {
        if self.counters().contains_key(pc) {
            self.counters()[pc] >= 0
        } else {
            target.0 < pc.0
        }
    }

    /// Predicts the direct branch at `pc` to `target`: by its counter, or
    /// backward-taken/forward-not-taken when it has none.
    pub fn predict_direct(&self, pc: Pc, target: Pc) -> (r: bool)
        ensures
            r == self.predicts_taken(pc, target),
    {
        match counter_table_get(&self.last_taken_map, pc) {
            Some(state) => state >= 0,
            None => target.0 < pc.0,
        }
    }

    /// `self` is `old` with the counter of `pc` moved one step towards `taken`.
    pub open spec fn is_direct_update(&self, old: BranchPredictor, pc: Pc, taken: bool) -> bool {
        &&& self.btb() == old.btb()
        &&& self.ras() == old.ras()
        &&& self.counters() == old.counters().insert(
            pc,
            next_counter(
                if old.counters().contains_key(pc) {
                    Some(old.counters()[pc])
                } else {
                    None
                },
                taken,
            ),
        )
    }

    /// Moves the counter of `pc` one step towards the outcome.
    pub fn update_predict_direct(&mut self, pc: Pc, taken: bool)
        requires
            old(self).wf(),
        ensures
            final(self).wf(),
            final(self).is_direct_update(*old(self), pc, taken),
    {
        let state = match counter_table_get(&self.last_taken_map, pc) {
            Some(state) => {
                if taken {
                    state + 1
                } else {
                    state - 1
                }
            },
            None => (if taken {
                1i32
            } else {
                0i32
            }) - 1,
        };
        let max_state: i32 = COUNTER_MAX;
        let state = if state < -max_state {
            -max_state
        } else {
            state
        };
        let state = if state > max_state - 1 {
            max_state - 1
        } else {
            state
        };
        counter_table_insert(&mut self.last_taken_map, pc, state);
        assert forall|p: Pc| #[trigger] counter_table(self.last_taken_map).contains_key(p) implies -2
            <= counter_table(self.last_taken_map)[p] <= 1 by {
            if p != pc {
                assert(counter_table(old(self).last_taken_map).contains_key(p));
            }
        }
    }

    /// Remembers `target` as where the indirect branch at `pc` went.
    pub fn update_predict_indirect(&mut self, pc: Pc, target: Pc)
        requires
            old(self).wf(),
        ensures
            final(self).wf(),
            final(self).btb() == old(self).btb().insert(pc, target),
            final(self).ras() == old(self).ras(),
            final(self).counters() == old(self).counters(),
    {
        pc_table_insert(&mut self.btb, pc, target);
    }

    /// Predicts where the jump `inst` at `pc` goes: its last target. A call
    /// (`jal ra, ..`) also pushes its return address.
    pub fn predict_indirect(&mut self, inst: &Inst, pc: Pc) -> (r: Option<Pc>)
        requires
            old(self).wf(),
            pc.0 + INST_SIZE <= u32::MAX,
        ensures
            final(self).wf(),
            final(self).btb() == old(self).btb(),
            final(self).counters() == old(self).counters(),
            final(self).ras() == if inst matches Inst::JumpAndLink(ArchReg::RA, _) {
                old(self).ras().push(Pc((pc.0 + INST_SIZE) as u32))
            } else {
                old(self).ras()
            },
            r == if old(self).btb().contains_key(pc) {
                Some(old(self).btb()[pc])
            } else {
                None
            },
    {
        if let Inst::JumpAndLink(ArchReg::RA, _) = inst {
            // Call
            self.ras.push(Pc(pc.0 + INST_SIZE));
            pc_table_get(&self.btb, pc)
        } else {
            pc_table_get(&self.btb, pc)
        }
    }
}

/// From no history, a taken and then a not-taken outcome of the branch at
/// `pc` leave it predicted not taken; the reverse order leaves it predicted
/// taken.
pub proof fn lemma_taken_then_not_taken(
    b0: BranchPredictor,
    b1: BranchPredictor,
    b2: BranchPredictor,
    pc: Pc,
    target: Pc,
    first: bool,
)
    requires
        !b0.counters().contains_key(pc),
        b1.is_direct_update(b0, pc, first),
        b2.is_direct_update(b1, pc, !first),
    ensures
        b2.predicts_taken(pc, target) == !first,
        b2.counters()[pc] == if first {
            -1i32
        } else {
            0i32
        },
{
    assert(b1.counters()[pc] == if first { 0i32 } else { -1i32 });
}

} // verus!
