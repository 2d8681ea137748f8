//! The reservation station: renamed instructions wait here until their
//! operands are ready, then until an execution unit takes them.
use crate::inst::{inst_corresponds, inst_fields, BothReg, Pc, ReadyInst, RenamedInst, Tag, ValueOrReg};
use crate::regs::{PrfEntry, operand_in_file, operand_ready, operand_value, RegFile};
use std::collections::BTreeMap;
use vstd::std_specs::iter::IteratorSpec;
use vstd::laws_cmp::obeys_cmp;
use vstd::std_specs::btree::increasing_seq;
use vstd::std_specs::cmp::OrdSpec;
use vstd::prelude::*;

verus! {

broadcast use vstd::std_specs::btree::group_btree_axioms, vstd::laws_cmp::group_laws_cmp;

/// The keys of `m` in increasing order.
fn sorted_keys<V>(m: &BTreeMap<u64, V>) -> (r: Vec<u64>)
    ensures
        r@.to_set() == m@.dom(),
        r@.no_duplicates(),
        forall|i: int, j: int| 0 <= i < j < r@.len() ==> r@[i] < r@[j],
{
    let ghost ks = vstd::std_specs::btree::spec_keys_iter(m).remaining();
    let mut r: Vec<u64> = Vec::new();
    for k in it: m.keys()
        invariant
            it.seq() == ks,
            r@.len() == it.index(),
            forall|i: int| 0 <= i < r@.len() ==> r@[i] == *ks[i],
    {
        r.push(*k);
    }
    assert(r@.len() == ks.len());
    assert(r@ =~= ks.unref());
    proof {
        vstd::std_specs::btree::axiom_spec_keys_iter(m);
    }
    assert(obeys_cmp::<&u64>());
    assert(increasing_seq(ks));
    assert forall|i: int, j: int| 0 <= i < j < r@.len() implies r@[i] < r@[j] by {
        vstd::std_specs::btree::axiom_increasing_seq_meaning(ks);
        let a = ks[i];
        let b = ks[j];
        assert(OrdSpec::cmp_spec(&a, &b) is Less);
        assert(*a < *b);
    }
    r
}

/// Whether `t` comes before `keys[i]` (every key, once `i` is past the end).
pub open spec fn lt_bound(t: u64, keys: Seq<u64>, i: int) -> bool {
    i >= keys.len() || t < keys[i]
}

/// Renamed instructions waiting for their operands, and instructions with
/// their operands read waiting to be issued, by tag.
pub struct ReservationStation {
    waiting: BTreeMap<u64, RenamedInst>,
    ready: BTreeMap<u64, ReadyInst>,
    capacity: usize,
}

/// Whether every operand of `i` can be read from `prf`.
pub open spec fn all_ready(prf: Seq<PrfEntry>, i: RenamedInst) -> bool {
    inst_fields(i, |s: ValueOrReg| operand_ready(prf, s), |d: BothReg| true, |j: Pc| true)
}

/// `ri` is `i` with its operands read from `prf`.
pub open spec fn read_from(prf: Seq<PrfEntry>, i: RenamedInst, ri: ReadyInst) -> bool {
    inst_corresponds(
        i,
        ri,
        |s: ValueOrReg, v: u32| v == operand_value(prf, s),
        |a: BothReg, b: BothReg| a == b,
        |a: Pc, b: Pc| a == b,
    )
}

impl ReservationStation {
    /// Waiting instructions by tag.
    pub closed spec fn waiting(&self) -> Map<u64, RenamedInst> {
        self.waiting@
    }

    /// Ready instructions by tag.
    pub closed spec fn ready(&self) -> Map<u64, ReadyInst> {
        self.ready@
    }

    /// How many instructions it holds at most.
    pub closed spec fn spec_capacity(&self) -> nat {
        self.capacity as nat
    }

    /// The operands of every waiting instruction name registers of a file of `n` entries.
    pub open spec fn operands_in_file(&self, n: nat) -> bool {
        forall|t: u64|
            #[trigger] self.waiting().contains_key(t) ==> inst_fields(
                self.waiting()[t],
                |s: ValueOrReg| operand_in_file(n, s),
                |d: BothReg| true,
                |j: Pc| true,
            )
    }

    /// An empty station for `capacity` instructions.
    pub fn new(capacity: usize) -> (r: Self)
        ensures
            r.waiting() == Map::<u64, RenamedInst>::empty(),
            r.ready() == Map::<u64, ReadyInst>::empty(),
            r.spec_capacity() == capacity,
    {
        Self { capacity, waiting: BTreeMap::new(), ready: BTreeMap::new() }
    }

    /// Whether it holds `capacity` instructions or more.
    pub fn is_full(&self) -> (r: bool)
        ensures
            r == (self.waiting().len() + self.ready().len() >= self.spec_capacity()),
    {
        let w = self.waiting.len();
        let r = self.ready.len();
        w >= self.capacity || r >= self.capacity - w
    }

    /// Adds the renamed instruction `tag`.
    pub fn insert(&mut self, tag: Tag, inst: RenamedInst)
        requires
            old(self).waiting().len() + old(self).ready().len() < old(self).spec_capacity(),
        ensures
            final(self).waiting() == old(self).waiting().insert(tag.0, inst),
            final(self).ready() == old(self).ready(),
            final(self).spec_capacity() == old(self).spec_capacity(),
    {
        self.waiting.insert(tag.0, inst);
    }

    /// Drops the issued instruction `tag`.
    pub fn pop_ready(&mut self, tag: Tag)
        ensures
            final(self).ready() == old(self).ready().remove(tag.0),
            final(self).waiting() == old(self).waiting(),
            final(self).spec_capacity() == old(self).spec_capacity(),
    {
        self.ready.remove(&tag.0);
    }

    /// Moves every waiting instruction whose operands can now be read from
    /// `rf` to the ready ones (with its operands read), and gives all ready
    /// instructions, oldest first.
    pub fn get_ready(&mut self, rf: &RegFile) -> (r: Vec<(Tag, ReadyInst)>)
        requires
            old(self).operands_in_file(rf.prf().len()),
        ensures
            final(self).spec_capacity() == old(self).spec_capacity(),
            final(self).operands_in_file(rf.prf().len()),
            forall|t: u64| #[trigger] final(self).waiting().contains_key(t) <==> (old(self).waiting().contains_key(t) && !all_ready(rf.prf(), old(self).waiting()[t])),
            forall|t: u64| #[trigger] final(self).waiting().contains_key(t) ==> final(self).waiting()[t] == old(self).waiting()[t],
            forall|t: u64| #[trigger] final(self).ready().contains_key(t) <==> (old(self).ready().contains_key(t) || (old(self).waiting().contains_key(t) && all_ready(rf.prf(), old(self).waiting()[t]))),
            forall|t: u64|
                #[trigger] final(self).ready().contains_key(t) ==> if old(self).waiting().contains_key(t) && all_ready(rf.prf(), old(self).waiting()[t]) {
                    read_from(rf.prf(), old(self).waiting()[t], final(self).ready()[t])
                } else {
                    final(self).ready()[t] == old(self).ready()[t]
                },
            forall|i: int| 0 <= i < r@.len() ==> final(self).ready().contains_key((#[trigger] r@[i]).0.0) && final(self).ready()[r@[i].0.0] == r@[i].1,
            forall|t: u64| #[trigger] final(self).ready().contains_key(t) ==> exists|i: int| 0 <= i < r@.len() && r@[i].0.0 == t,
            forall|i: int, j: int| 0 <= i < j < r@.len() ==> r@[i].0.0 < r@[j].0.0,
    {
        let keys = sorted_keys(&self.waiting);
        let ghost w0 = self.waiting@;
        let ghost r0 = self.ready@;
        let ghost prf = rf.prf();
        let mut i: usize = 0;
        while i < keys.len()
            invariant
                prf == rf.prf(),
                old(self).operands_in_file(rf.prf().len()),
                w0 == old(self).waiting(),
                r0 == old(self).ready(),
                self.capacity == old(self).capacity,
                keys@.to_set() == w0.dom(),
                forall|a: int, b: int| 0 <= a < b < keys@.len() ==> keys@[a] < keys@[b],
                i <= keys@.len(),
                forall|t: u64| #[trigger] self.waiting@.contains_key(t) <==> (w0.contains_key(t) && !(lt_bound(t, keys@, i as int) && all_ready(prf, w0[t]))),
                forall|t: u64| #[trigger] self.waiting@.contains_key(t) ==> self.waiting@[t] == w0[t],
                forall|t: u64| #[trigger] self.ready@.contains_key(t) <==> (r0.contains_key(t) || (w0.contains_key(t) && lt_bound(t, keys@, i as int) && all_ready(prf, w0[t]))),
                forall|t: u64|
                    #[trigger] self.ready@.contains_key(t) ==> if w0.contains_key(t) && lt_bound(t, keys@, i as int) && all_ready(prf, w0[t]) {
                        read_from(prf, w0[t], self.ready@[t])
                    } else {
                        self.ready@[t] == r0[t]
                    },
            decreases keys@.len() - i,
        {
            let k = keys[i];
            proof {
                assert(keys@.to_set().contains(k));
                assert(lt_bound(k, keys@, i as int) == false);
                assert(self.waiting@.contains_key(k));
            }
            let inst = *self.waiting.get(&k).unwrap();
            let ready = inst.get_ready(rf);
            let ghost wb = self.waiting@;
            let ghost rb = self.ready@;
            match ready {
                Some(ri) => {
                    self.ready.insert(k, ri);
                    self.waiting.remove(&k);
                },
                None => {},
            }
            proof {
                assert forall|t: u64| w0.contains_key(t) implies lt_bound(t, keys@, i + 1) == (lt_bound(t, keys@, i as int) || t == k) by {
                    assert(keys@.to_set().contains(t));
                    let j = choose|j: int| 0 <= j < keys@.len() && keys@[j] == t;
                    if j < i {
                    } else if j == i {
                    } else {
                        assert(keys@[i as int] < keys@[j]);
                        if i + 1 < keys@.len() {
                            if j > i + 1 {
                                assert(keys@[i + 1] < keys@[j]);
                            }
                        }
                    }
                }
            }
            i = i + 1;
        }
        proof {
            assert forall|t: u64| w0.contains_key(t) implies lt_bound(t, keys@, i as int) by {}
        }
        let rkeys = sorted_keys(&self.ready);
        let mut out: Vec<(Tag, ReadyInst)> = Vec::new();
        let mut j: usize = 0;
        while j < rkeys.len()
            invariant
                rkeys@.to_set() == self.ready@.dom(),
                forall|a: int, b: int| 0 <= a < b < rkeys@.len() ==> rkeys@[a] < rkeys@[b],
                j <= rkeys@.len(),
                out@.len() == j,
                forall|a: int| 0 <= a < j ==> (#[trigger] out@[a]).0.0 == rkeys@[a] && self.ready@[rkeys@[a]] == out@[a].1,
            decreases rkeys@.len() - j,
        {
            let k = rkeys[j];
            proof {
                assert(rkeys@.to_set().contains(k));
            }
            let v = *self.ready.get(&k).unwrap();
            out.push((Tag(k), v));
            j = j + 1;
        }
        proof {
            assert forall|a: int| 0 <= a < out@.len() implies self.ready@.contains_key((#[trigger] out@[a]).0.0) by {
                assert(rkeys@.to_set().contains(rkeys@[a]));
            }
            assert forall|t: u64| #[trigger] self.ready@.contains_key(t) implies exists|a: int| 0 <= a < out@.len() && out@[a].0.0 == t by {
                assert(rkeys@.to_set().contains(t));
                let a = choose|a: int| 0 <= a < rkeys@.len() && rkeys@[a] == t;
                assert(out@[a].0.0 == t);
            }
            assert forall|t: u64| #[trigger] self.waiting@.contains_key(t) implies inst_fields(
                self.waiting@[t],
                |s: ValueOrReg| operand_in_file(rf.prf().len(), s),
                |d: BothReg| true,
                |j: Pc| true,
            ) by {
                assert(w0.contains_key(t));
            }
        }
        out
    }

    /// Drops every instruction younger than `tag`.
    pub fn kill_tags_after(&mut self, tag: Tag)
        ensures
            final(self).spec_capacity() == old(self).spec_capacity(),
            final(self).waiting() == old(self).waiting().restrict(Set::new(|t: u64| t <= tag.0)),
            final(self).ready() == old(self).ready().restrict(Set::new(|t: u64| t <= tag.0)),
    {
        let keys = sorted_keys(&self.waiting);
        let mut i: usize = 0;
        while i < keys.len()
            invariant
                keys@.to_set() == old(self).waiting@.dom(),
                i <= keys@.len(),
                self.ready@ == old(self).ready@,
                self.capacity == old(self).capacity,
                forall|t: u64| #[trigger] self.waiting@.contains_key(t) <==> (old(self).waiting@.contains_key(t) && (t <= tag.0 || !exists|a: int| 0 <= a < i && keys@[a] == t)),
                forall|t: u64| #[trigger] self.waiting@.contains_key(t) ==> self.waiting@[t] == old(self).waiting@[t],
            decreases keys@.len() - i,
        {
            let k = keys[i];
            if k > tag.0 {
                self.waiting.remove(&k);
            }
            i = i + 1;
        }
        proof {
            assert forall|t: u64| old(self).waiting@.contains_key(t) implies exists|a: int| 0 <= a < i && keys@[a] == t by {
                assert(keys@.to_set().contains(t));
            }
            assert(self.waiting@ =~= old(self).waiting@.restrict(Set::new(|t: u64| t <= tag.0)));
        }
        let keys = sorted_keys(&self.ready);
        let mut i: usize = 0;
        while i < keys.len()
            invariant
                keys@.to_set() == old(self).ready@.dom(),
                i <= keys@.len(),
                self.waiting@ == old(self).waiting@.restrict(Set::new(|t: u64| t <= tag.0)),
                self.capacity == old(self).capacity,
                forall|t: u64| #[trigger] self.ready@.contains_key(t) <==> (old(self).ready@.contains_key(t) && (t <= tag.0 || !exists|a: int| 0 <= a < i && keys@[a] == t)),
                forall|t: u64| #[trigger] self.ready@.contains_key(t) ==> self.ready@[t] == old(self).ready@[t],
            decreases keys@.len() - i,
        {
            let k = keys[i];
            if k > tag.0 {
                self.ready.remove(&k);
            }
            i = i + 1;
        }
        proof {
            assert forall|t: u64| old(self).ready@.contains_key(t) implies exists|a: int| 0 <= a < i && keys@[a] == t by {
                assert(keys@.to_set().contains(t));
            }
            assert(self.ready@ =~= old(self).ready@.restrict(Set::new(|t: u64| t <= tag.0)));
        }
    }
}

} // verus!
