//! The load/store queue: memory accesses in flight, in program order.
use crate::inst::{inst_fields, BothReg, Inst, MemRef, Pc, RenamedInst, Tag, Tagged, ValueOrReg};
use crate::mem::{le_value, word_written, MemoryHierarchy};
use crate::regs::{operand_in_file, operand_ready, operand_value, PrfEntry, RegFile};
use crate::reservation_station::all_ready;
use crate::queue::Queue;
use std::ops::Range;
use vstd::prelude::*;

verus! {

#[derive(Debug)]
pub struct Store {
    pub tagged: Tagged<RenamedInst>,
    pub address: Option<Range<u32>>,
}

#[derive(Debug)]
pub struct Load {
    pub tagged: Tagged<RenamedInst>,
    pub address: Option<Range<u32>>,
    pub completed: bool,
}

#[derive(Debug)]
pub struct LoadStoreQueue {
    loads: Queue<Load>,
    stores: Queue<Store>,
}

/// Whether loads may run ahead of older stores whose address is unknown.
pub const MEM_SPECULATION: bool = true;

impl Store {
    pub fn new(tagged: Tagged<RenamedInst>) -> (r: Self)
        ensures
            r.tagged == tagged,
            r.address is None,
    {
        Self { tagged, address: None }
    }
}

impl Load {
    pub fn new(tagged: Tagged<RenamedInst>) -> (r: Self)
        ensures
            r.tagged == tagged,
            r.address is None,
            !r.completed,
    {
        Self { tagged, address: None, completed: false }
    }
}

/// Two address ranges share no byte: one ends before the other starts.
pub open spec fn spec_ranges_disjoint(a: Range<u32>, b: Range<u32>) -> bool {
    a.end <= b.start || b.end <= a.start
}

/// Older stores whose address is known leave the load at `addr` alone.
pub open spec fn older_stores_allow(stores: Seq<Store>, tag: Tag, addr: Range<u32>) -> bool {
    forall|i: int|
        0 <= i < stores.len() && (#[trigger] stores[i]).tagged.tag.0 < tag.0 && stores[i].address is Some
            ==> spec_ranges_disjoint(stores[i].address->0, addr)
}

/// A completed younger load that overlaps a store at `addr` tagged `tag`.
pub open spec fn clashing_load(l: Load, tag: Tag, addr: Range<u32>) -> bool {
    l.tagged.tag.0 > tag.0 && l.completed && l.address is Some && !spec_ranges_disjoint(
        l.address->0,
        addr,
    )
}

pub open spec fn load_tagged(s: Seq<Load>, tag: Tag) -> bool {
    exists|i: int| 0 <= i < s.len() && s[i].tagged.tag == tag
}

pub open spec fn store_tagged(s: Seq<Store>, tag: Tag) -> bool {
    exists|i: int| 0 <= i < s.len() && s[i].tagged.tag == tag
}

/// `after` is `before` with its first load tagged `tag` changed to `new`.
pub open spec fn first_load_updated(before: Seq<Load>, after: Seq<Load>, tag: Tag, new: spec_fn(Load) -> Load) -> bool {
    exists|i: int|
        0 <= i < before.len() && before[i].tagged.tag == tag && (forall|j: int|
            0 <= j < i ==> before[j].tagged.tag != tag) && after == before.update(i, new(before[i]))
}

pub open spec fn first_store_updated(before: Seq<Store>, after: Seq<Store>, tag: Tag, new: spec_fn(Store) -> Store) -> bool {
    exists|i: int|
        0 <= i < before.len() && before[i].tagged.tag == tag && (forall|j: int|
            0 <= j < i ==> before[j].tagged.tag != tag) && after == before.update(i, new(before[i]))
}

/// The address a renamed memory operand denotes with its base read from `prf`.
pub open spec fn operand_addr(prf: Seq<PrfEntry>, m: MemRef<ValueOrReg>) -> u32 {
    operand_value(prf, m.base).wrapping_add(m.offset.0)
}

/// Whether the renamed store `i`, its operands read from `prf`, is a byte or
/// word store inside a memory of `len` bytes, a word store at a
/// word-aligned address.
pub open spec fn store_writable(prf: Seq<PrfEntry>, i: RenamedInst, len: nat) -> bool {
    match i {
        Inst::StoreByte(_, m) => operand_addr(prf, m) < len,
        Inst::StoreWord(_, m) => operand_addr(prf, m) % 4 == 0 && operand_addr(prf, m) + 3 < len,
        _ => false,
    }
}

/// Memory `after` is `before` with the store `i` (operands from `prf`) done.
pub open spec fn store_done(before: Seq<u8>, after: Seq<u8>, prf: Seq<PrfEntry>, i: RenamedInst) -> bool {
    (i is StoreByte || i is StoreWord) && after == store_applied(before, prf, i)
}

/// Memory `m` with the store `i` made, its operands read from `prf`: a byte
/// store writes the low byte, a word store the little-endian word.
pub open spec fn store_applied(m: Seq<u8>, prf: Seq<PrfEntry>, i: RenamedInst) -> Seq<u8> {
    match i {
        Inst::StoreByte(v, mr) => m.update(operand_addr(prf, mr) as int, (operand_value(prf, v) % 256) as u8),
        Inst::StoreWord(v, mr) => word_written(m, operand_addr(prf, mr) as int, operand_value(prf, v)),
        _ => m,
    }
}

/// The value of a renamed operand if it names a register of the file (of
/// `n` entries) that holds one.
fn operand_read(rf: &RegFile, n: usize, s: ValueOrReg) -> (r: Option<u32>)
    requires
        n == rf.prf().len(),
    ensures
        r is Some <==> (operand_in_file(n as nat, s) && operand_ready(rf.prf(), s)),
        r matches Some(x) ==> x == operand_value(rf.prf(), s),
{
    match s {
        ValueOrReg::Value(x) => Some(x),
        ValueOrReg::Reg(p) => {
            if p.0 < 0 || p.0 as usize >= n {
                return None;
            }
            match rf.get_phys(p) {
                PrfEntry::Active(x) => Some(x),
                _ => None,
            }
        },
    }
}

fn copy_range(r: &Range<u32>) -> (c: Range<u32>)
    ensures
        c == *r,
{
    Range { start: r.start, end: r.end }
}

impl LoadStoreQueue {
    pub closed spec fn loads(&self) -> Seq<Load> {
        self.loads@
    }

    pub closed spec fn stores(&self) -> Seq<Store> {
        self.stores@
    }

    pub closed spec fn load_capacity(&self) -> nat {
        self.loads.spec_capacity()
    }

    pub closed spec fn store_capacity(&self) -> nat {
        self.stores.spec_capacity()
    }

    pub fn new(load_capacity: usize, store_capacity: usize) -> (r: Self)
        ensures
            r.loads() == Seq::<Load>::empty(),
            r.stores() == Seq::<Store>::empty(),
            r.load_capacity() == load_capacity,
            r.store_capacity() == store_capacity,
    {
        Self { loads: Queue::new(load_capacity), stores: Queue::new(store_capacity) }
    }

    /// Whether `inst` fits: loads and stores need room in their queue.
    pub fn has_space(&self, inst: &Inst) -> (r: bool)
        ensures
            r == if inst.spec_is_load() {
                self.loads().len() < self.load_capacity()
            } else if inst.spec_is_store() {
                self.stores().len() < self.store_capacity()
            } else {
                true
            },
    {
        if inst.is_load() {
            !self.loads.is_full()
        } else if inst.is_store() {
            !self.stores.is_full()
        } else {
            true
        }
    }

    /// Enters a load or store at the back of its queue.
    pub fn insert_access(&mut self, inst: RenamedInst, tag: Tag)
        requires
            inst.spec_is_load() ==> old(self).loads().len() < old(self).load_capacity(),
            inst.spec_is_store() ==> old(self).stores().len() < old(self).store_capacity(),
            inst.spec_is_load() || inst.spec_is_store(),
        ensures
            final(self).load_capacity() == old(self).load_capacity(),
            final(self).store_capacity() == old(self).store_capacity(),
            inst.spec_is_load() ==> final(self).loads() == old(self).loads().push(
                Load::new_spec(Tagged { tag, inst }),
            ) && final(self).stores() == old(self).stores(),
            inst.spec_is_store() ==> final(self).stores() == old(self).stores().push(
                Store::new_spec(Tagged { tag, inst }),
            ) && final(self).loads() == old(self).loads(),
    {
        let entry = Tagged { tag, inst };
        if entry.inst.is_load() {
            let r = self.loads.try_push(Load::new(entry));
            assert(r is None);
        } else {
            let r = self.stores.try_push(Store::new(entry));
            assert(r is None);
        }
    }

    /// Records the address of the load `tag`; whether it may go ahead.
    pub fn can_execute_load(&mut self, tag: Tag, load_addr: Range<u32>) -> (r: bool)
        requires
            load_tagged(old(self).loads(), tag),
        ensures
            final(self).load_capacity() == old(self).load_capacity(),
            final(self).store_capacity() == old(self).store_capacity(),
            final(self).stores() == old(self).stores(),
            first_load_updated(
                old(self).loads(),
                final(self).loads(),
                tag,
                |l: Load| Load { address: Some(load_addr), ..l },
            ),
            r == older_stores_allow(old(self).stores(), tag, load_addr),
    {
        if MEM_SPECULATION {
            let i = self.find_load(tag);
            let old_load = self.loads.get(i);
            let new_load = Load {
                tagged: old_load.tagged,
                address: Some(copy_range(&load_addr)),
                completed: old_load.completed,
            };
            self.loads.set(i, new_load);
            assert(self.loads@ == old(self).loads@.update(i as int, Load { address: Some(load_addr), ..old(self).loads@[i as int] }));
            let ghost loads_now = self.loads@;
            assert(first_load_updated(
                old(self).loads(),
                self.loads(),
                tag,
                |l: Load| Load { address: Some(load_addr), ..l },
            ));
            // Optimistically return yes, unless we know the answer is definitely no.
            let m = self.stores.len();
            let mut k: usize = 0;
            while k < m
                invariant
                    m == self.stores@.len(),
                    self.stores@ == old(self).stores@,
                    self.loads@ == loads_now,
                    first_load_updated(
                        old(self).loads(),
                        self.loads(),
                        tag,
                        |l: Load| Load { address: Some(load_addr), ..l },
                    ),
                    self.loads.spec_capacity() == old(self).loads.spec_capacity(),
                    self.stores.spec_capacity() == old(self).stores.spec_capacity(),
                    k <= m,
                    older_stores_allow(self.stores@.take(k as int), tag, load_addr),
                decreases m - k,
            {
                let s = self.stores.get(k);
                if s.tagged.tag.0 < tag.0 {
                    if let Some(store_addr) = &s.address {
                        if !Self::ranges_disjoint(store_addr, &load_addr) {
                            assert(!older_stores_allow(self.stores@, tag, load_addr));
                            return false;
                        }
                    }
                }
                assert forall|x: int|
                    0 <= x < k + 1 && (#[trigger] self.stores@.take(k + 1)[x]).tagged.tag.0 < tag.0
                        && self.stores@.take(k + 1)[x].address is Some implies spec_ranges_disjoint(
                    self.stores@.take(k + 1)[x].address->0,
                    load_addr,
                ) by {
                    if x < k {
                        assert(self.stores@.take(k + 1)[x] == self.stores@.take(k as int)[x]);
                    }
                }
                k = k + 1;
            }
            assert(self.stores@.take(m as int) == self.stores@);
            true
        } else {
            // Stores are entered into the LSQ in order: the next store must
            // come after the load.
            proof {
                assert(false);
            }
            match self.stores.front() {
                Some(s) => s.tagged.tag.0 > tag.0,
                None => true,
            }
        }
    }

    /// Position of the first load tagged `tag`.
    fn find_load(&self, tag: Tag) -> (i: usize)
        requires
            load_tagged(self.loads(), tag),
        ensures
            i < self.loads().len(),
            self.loads()[i as int].tagged.tag == tag,
            forall|j: int| 0 <= j < i ==> self.loads()[j].tagged.tag != tag,
    {
        let n = self.loads.len();
        let mut i: usize = 0;
        while i < n
            invariant
                n == self.loads@.len(),
                load_tagged(self.loads@, tag),
                i <= n,
                forall|j: int| 0 <= j < i ==> self.loads@[j].tagged.tag != tag,
            decreases n - i,
        {
            if self.loads.get(i).tagged.tag == tag {
                return i;
            }
            i = i + 1;
        }
        i
    }

    /// Position of the first store tagged `tag`.
    fn find_store(&self, tag: Tag) -> (i: usize)
        requires
            store_tagged(self.stores(), tag),
        ensures
            i < self.stores().len(),
            self.stores()[i as int].tagged.tag == tag,
            forall|j: int| 0 <= j < i ==> self.stores()[j].tagged.tag != tag,
    {
        let n = self.stores.len();
        let mut i: usize = 0;
        while i < n
            invariant
                n == self.stores@.len(),
                store_tagged(self.stores@, tag),
                i <= n,
                forall|j: int| 0 <= j < i ==> self.stores@[j].tagged.tag != tag,
            decreases n - i,
        {
            if self.stores.get(i).tagged.tag == tag {
                return i;
            }
            i = i + 1;
        }
        i
    }

    /// The test applied to two address ranges (see `spec_ranges_disjoint`).
    fn ranges_disjoint(a: &Range<u32>, b: &Range<u32>) -> (r: bool)
        ensures
            r == spec_ranges_disjoint(*a, *b),
    {
        a.end <= b.start || b.end <= a.start
    }

    /// Records the address of the store `tag`. No completed younger load may
    /// overlap it: the queue does not recover from that.
    pub fn store_addr_known(&mut self, tag: Tag, store_addr: Range<u32>)
        requires
            store_tagged(old(self).stores(), tag),
            forall|i: int|
                0 <= i < old(self).loads().len() ==> !clashing_load(
                    #[trigger] old(self).loads()[i],
                    tag,
                    store_addr,
                ),
        ensures
            final(self).load_capacity() == old(self).load_capacity(),
            final(self).store_capacity() == old(self).store_capacity(),
            final(self).loads() == old(self).loads(),
            first_store_updated(
                old(self).stores(),
                final(self).stores(),
                tag,
                |s: Store| Store { address: Some(store_addr), ..s },
            ),
    {
        if MEM_SPECULATION {
            let i = self.find_store(tag);
            let old_store = self.stores.get(i);
            let new_store = Store {
                tagged: old_store.tagged,
                address: Some(copy_range(&store_addr)),
            };
            self.stores.set(i, new_store);
            assert(self.stores@ == old(self).stores@.update(i as int, Store { address: Some(store_addr), ..old(self).stores@[i as int] }));
        }
    }

    /// Whether a load is tagged `tag`.
    pub fn has_load(&self, tag: Tag) -> (r: bool)
        ensures
            r == load_tagged(self.loads(), tag),
    {
        let n = self.loads.len();
        let mut i: usize = 0;
        while i < n
            invariant
                n == self.loads@.len(),
                i <= n,
                forall|j: int| 0 <= j < i ==> self.loads@[j].tagged.tag != tag,
            decreases n - i,
        {
            if self.loads.get(i).tagged.tag == tag {
                return true;
            }
            i = i + 1;
        }
        false
    }

    /// Whether a store is tagged `tag`.
    pub fn has_store(&self, tag: Tag) -> (r: bool)
        ensures
            r == store_tagged(self.stores(), tag),
    {
        let n = self.stores.len();
        let mut i: usize = 0;
        while i < n
            invariant
                n == self.stores@.len(),
                i <= n,
                forall|j: int| 0 <= j < i ==> self.stores@[j].tagged.tag != tag,
            decreases n - i,
        {
            if self.stores.get(i).tagged.tag == tag {
                return true;
            }
            i = i + 1;
        }
        false
    }

    /// Whether a completed load younger than the store `tag` overlaps `addr`.
    pub fn store_clash(&self, tag: Tag, addr: &Range<u32>) -> (r: bool)
        ensures
            r == exists|i: int| 0 <= i < self.loads().len() && clashing_load(#[trigger] self.loads()[i], tag, *addr),
    {
        let n = self.loads.len();
        let mut i: usize = 0;
        while i < n
            invariant
                n == self.loads@.len(),
                i <= n,
                forall|j: int| 0 <= j < i ==> !clashing_load(#[trigger] self.loads@[j], tag, *addr),
            decreases n - i,
        {
            let l = self.loads.get(i);
            let clash = match &l.address {
                Some(a) => l.tagged.tag.0 > tag.0 && l.completed && !Self::ranges_disjoint(a, addr),
                None => false,
            };
            if clash {
                assert(clashing_load(self.loads()[i as int], tag, *addr));
                return true;
            }
            i = i + 1;
        }
        false
    }

    /// Whether the oldest store is tagged `tag` and can be committed: its
    /// operands are computed in `rf` and it is a byte or word store inside
    /// memory.
    pub fn can_submit_store(&self, tag: Tag, rf: &RegFile, mem_len: usize) -> (r: bool)
        ensures
            r == (self.stores().len() > 0 && self.stores()[0].tagged.tag == tag && inst_fields(
                self.stores()[0].tagged.inst,
                |s: ValueOrReg| operand_in_file(rf.prf().len(), s),
                |d: BothReg| true,
                |j: Pc| true,
            ) && all_ready(rf.prf(), self.stores()[0].tagged.inst) && store_writable(
                rf.prf(),
                self.stores()[0].tagged.inst,
                mem_len as nat,
            )),
    {
        if self.stores.len() == 0 {
            return false;
        }
        let s = self.stores.get(0);
        if s.tagged.tag != tag {
            return false;
        }
        let n = rf.prf_len();
        let (v, m) = match s.tagged.inst {
            Inst::StoreByte(v, m) | Inst::StoreWord(v, m) => (v, m),
            _ => {
                return false;
            },
        };
        let vv = match operand_read(rf, n, v) {
            Some(x) => x,
            None => {
                return false;
            },
        };
        let base = match operand_read(rf, n, m.base) {
            Some(x) => x,
            None => {
                return false;
            },
        };
        let a = base.wrapping_add(m.offset.0);
        match s.tagged.inst {
            Inst::StoreByte(_, _) => (a as usize) < mem_len,
            _ => a % 4 == 0 && mem_len >= 4 && (a as usize) < mem_len - 3,
        }
    }

    /// Commits the oldest store, the instruction `tag`: writes its value,
    /// read from `rf`, to main memory.
    pub fn submit_store(&mut self, tag: Tag, rf: &RegFile, mem: &mut MemoryHierarchy)
        requires
            old(self).stores().len() > 0,
            old(self).stores()[0].tagged.tag == tag,
            inst_fields(old(self).stores()[0].tagged.inst, |s: ValueOrReg| operand_in_file(rf.prf().len(), s), |d: BothReg| true, |j: Pc| true),
            all_ready(rf.prf(), old(self).stores()[0].tagged.inst),
            store_writable(rf.prf(), old(self).stores()[0].tagged.inst, old(mem).main_mem()@.len()),
        ensures
            final(self).stores() == old(self).stores().drop_first(),
            final(self).loads() == old(self).loads(),
            final(self).load_capacity() == old(self).load_capacity(),
            final(self).store_capacity() == old(self).store_capacity(),
            final(mem).l1() == old(mem).l1(),
            final(mem).l2() == old(mem).l2(),
            final(mem).l3() == old(mem).l3(),
            final(mem).pending() == old(mem).pending(),
            store_done(old(mem).main_mem()@, final(mem).main_mem()@, rf.prf(), old(self).stores()[0].tagged.inst),
    {
        let store = self.stores.try_pop().unwrap();
        match store.tagged.inst.get_ready(rf) {
            Some(ri) => match ri {
                Inst::StoreByte(v, m) => {
                    mem.main.writeb(m.compute_addr(), v);
                },
                Inst::StoreWord(v, m) => {
                    mem.main.writew(m.compute_addr(), v);
                },
                _ => {},
            },
            None => {},
        }
    }

    /// Marks the load `tag` as having produced its value.
    pub fn load_complete(&mut self, tag: Tag)
        requires
            load_tagged(old(self).loads(), tag),
        ensures
            final(self).load_capacity() == old(self).load_capacity(),
            final(self).store_capacity() == old(self).store_capacity(),
            final(self).stores() == old(self).stores(),
            first_load_updated(
                old(self).loads(),
                final(self).loads(),
                tag,
                |l: Load| Load { completed: true, ..l },
            ),
    {
        let i = self.find_load(tag);
        let old_load = self.loads.get(i);
        let addr = match &old_load.address {
            Some(a) => Some(copy_range(a)),
            None => None,
        };
        let new_load = Load { tagged: old_load.tagged, address: addr, completed: true };
        self.loads.set(i, new_load);
        assert(self.loads@ == old(self).loads@.update(i as int, Load { completed: true, ..old(self).loads@[i as int] }));
    }

    /// Drops the load `tag`.
    pub fn release_load(&mut self, tag: Tag)
        ensures
            final(self).load_capacity() == old(self).load_capacity(),
            final(self).store_capacity() == old(self).store_capacity(),
            final(self).stores() == old(self).stores(),
            final(self).loads() == old(self).loads().filter(|l: Load| l.tagged.tag != tag),
    {
        let keep = |l: &Load| -> (b: bool)
            ensures
                b == (l.tagged.tag != tag),
            { l.tagged.tag != tag };
        self.loads.retain(keep, Ghost(|l: Load| l.tagged.tag != tag));
    }

    /// Drops every access younger than `tag`.
    pub fn kill_tags_after(&mut self, tag: Tag)
        ensures
            final(self).load_capacity() == old(self).load_capacity(),
            final(self).store_capacity() == old(self).store_capacity(),
            final(self).loads() == old(self).loads().filter(|l: Load| l.tagged.tag.0 <= tag.0),
            final(self).stores() == old(self).stores().filter(|s: Store| s.tagged.tag.0 <= tag.0),
    {
        let keep_load = |l: &Load| -> (b: bool)
            ensures
                b == (l.tagged.tag.0 <= tag.0),
            { l.tagged.tag.0 <= tag.0 };
        self.loads.retain(keep_load, Ghost(|l: Load| l.tagged.tag.0 <= tag.0));
        let keep_store = |s: &Store| -> (b: bool)
            ensures
                b == (s.tagged.tag.0 <= tag.0),
            { s.tagged.tag.0 <= tag.0 };
        self.stores.retain(keep_store, Ghost(|s: Store| s.tagged.tag.0 <= tag.0));
    }
}

impl Load {
    pub open spec fn new_spec(tagged: Tagged<RenamedInst>) -> Load {
        Load { tagged, address: None, completed: false }
    }
}

impl Store {
    pub open spec fn new_spec(tagged: Tagged<RenamedInst>) -> Store {
        Store { tagged, address: None }
    }
}

} // verus!
