//! Main memory and the cache hierarchy in front of it.
use crate::inst::Tag;
use crate::util::Addr;
use associative_cache::{
    AssociativeCache, Capacity2048, Capacity256, Capacity512, HashEightWay, LruReplacement,
    WithLruTimestamp,
};
use vstd::prelude::*;

verus! {

pub const L1_CAPACITY_BYTES: usize = 16_000;
pub const L2_CAPACITY_BYTES: usize = 32_000;
pub const L3_CAPACITY_BYTES: usize = 128_000;
pub const DRAM_CAPACITY_BYTES: usize = 256_000;

/// Initial stack pointer.
pub const STACK_TOP: usize = 254_000;

pub const L1_LATENCY: u64 = 5;
pub const L2_LATENCY: u64 = 20;
pub const L3_LATENCY: u64 = 40;
pub const DRAM_LATENCY: u64 = 400;

/// Byte-addressed main memory.
#[derive(Debug, PartialEq, Eq, Default)]
pub struct MainMemory {
    mem: Vec<u8>,
}

impl View for MainMemory {
    type V = Seq<u8>;

    closed spec fn view(&self) -> Seq<u8> {
        self.mem@
    }
}

/// The little-endian value of `n` bytes of `m` from `a`.
pub open spec fn le_value(m: Seq<u8>, a: int, n: nat) -> nat
    decreases n,
{
    if n == 0 {
        0
    } else {
        m[a] as nat + 256 * le_value(m, a + 1, (n - 1) as nat)
    }
}

impl Clone for MainMemory {
    fn clone(&self) -> (r: Self)
        ensures
            r@ == self@,
    {
        let mut mem: Vec<u8> = Vec::new();
        let mut i: usize = 0;
        while i < self.mem.len()
            invariant
                i <= self.mem@.len(),
                mem@ == self.mem@.take(i as int),
            decreases self.mem@.len() - i,
        {
            mem.push(self.mem[i]);
            i = i + 1;
        }
        assert(self.mem@.take(i as int) == self.mem@);
        MainMemory { mem }
    }
}

/// `m` with the little-endian bytes of `val` at `a..a + 4`.
pub open spec fn word_written(m: Seq<u8>, a: int, val: u32) -> Seq<u8> {
    m.update(a, (val % 256) as u8).update(a + 1, ((val / 256) % 256) as u8).update(
        a + 2,
        ((val / 65536) % 256) as u8,
    ).update(a + 3, (val / 16777216) as u8)
}

/// Reading a word where a word was written gives back the value written, and
/// every other byte keeps its value.
pub proof fn lemma_word_read_after_write(m: Seq<u8>, a: int, val: u32)
    requires
        0 <= a,
        a + 3 < m.len(),
    ensures
        le_value(word_written(m, a, val), a, 4) == val,
        word_written(m, a, val).len() == m.len(),
        forall|i: int| 0 <= i < m.len() && !(a <= i < a + 4) ==> word_written(m, a, val)[i] == m[i],
{
    reveal_with_fuel(le_value, 5);
}

/// Reading a byte where a byte was written gives back its low eight bits.
pub proof fn lemma_byte_read_after_write(m: Seq<u8>, a: int, val: u32)
    requires
        0 <= a < m.len(),
    ensures
        m.update(a, (val % 256) as u8)[a] == val % 256,
{
}

impl MainMemory {
    /// `DRAM_CAPACITY_BYTES` zero bytes.
    pub fn new() -> (r: Self)
        ensures
            r@ == Seq::new(DRAM_CAPACITY_BYTES as nat, |i: int| 0u8),
    {
        Self { mem: vec![0; DRAM_CAPACITY_BYTES] }
    }

    /// Whether `self` and `other` hold the same bytes.
    pub fn same_as(&self, other: &MainMemory) -> (r: bool)
        ensures
            r == (self@ == other@),
    {
        let n = self.mem.len();
        if n != other.mem.len() {
            return false;
        }
        let mut i: usize = 0;
        while i < n
            invariant
                n == self.mem@.len(),
                n == other.mem@.len(),
                i <= n,
                forall|j: int| 0 <= j < i ==> self.mem@[j] == other.mem@[j],
            decreases n - i,
        {
            if self.mem[i] != other.mem[i] {
                return false;
            }
            i = i + 1;
        }
        assert(self.mem@ =~= other.mem@);
        true
    }

    /// The number of bytes.
    pub fn len(&self) -> (r: usize)
        ensures
            r == self@.len(),
    {
        self.mem.len()
    }

    pub fn readb(&self, addr: Addr) -> (r: u32)
        requires
            addr.0 < self@.len(),
        ensures
            r == self@[addr.0 as int],
    {
        self.mem[addr.0 as usize] as u32
    }

    /// The little-endian half word at the even address `addr`.
    pub fn readh(&self, addr: Addr) -> (r: u32)
        requires
            addr.0 % 2 == 0,
            addr.0 + 1 < self@.len(),
        ensures
            r == le_value(self@, addr.0 as int, 2),
    {
        let a = addr.0 as usize;
        proof {
            reveal_with_fuel(le_value, 3);
        }
        (self.mem[a] as u32) + 256 * (self.mem[a + 1] as u32)
    }

    /// The little-endian word at the word-aligned address `addr`.
    pub fn readw(&self, addr: Addr) -> (r: u32)
        requires
            addr.0 % 4 == 0,
            addr.0 + 3 < self@.len(),
        ensures
            r == le_value(self@, addr.0 as int, 4),
    {
        let a = addr.0 as usize;
        proof {
            reveal_with_fuel(le_value, 5);
        }
        (self.mem[a] as u32) + 256 * ((self.mem[a + 1] as u32) + 256 * ((self.mem[a + 2] as u32)
            + 256 * (self.mem[a + 3] as u32)))
    }

    /// Stores the low byte of `val`.
    pub fn writeb(&mut self, addr: Addr, val: u32)
        requires
            addr.0 < old(self)@.len(),
        ensures
            final(self)@ == old(self)@.update(addr.0 as int, (val % 256) as u8),
    {
        let b = (val % 256) as u8;
        self.mem.set(addr.0 as usize, b);
    }

    /// Stores `val` as a little-endian word at the word-aligned address `addr`.
    pub fn writew(&mut self, addr: Addr, val: u32)
        requires
            addr.0 % 4 == 0,
            addr.0 + 3 < old(self)@.len(),
        ensures
            final(self)@.len() == old(self)@.len(),
            forall|i: int|
                0 <= i < old(self)@.len() && !(addr.0 <= i < addr.0 + 4) ==> final(self)@[i] == old(
                    self,
                )@[i],
            le_value(final(self)@, addr.0 as int, 4) == val,
            final(self)@ == word_written(old(self)@, addr.0 as int, val),
    {
        let a = addr.0 as usize;
        let b0 = (val % 256) as u8;
        let b1 = ((val / 256) % 256) as u8;
        let b2 = ((val / 65536) % 256) as u8;
        let b3 = (val / 16777216) as u8;
        self.mem.set(a, b0);
        self.mem.set(a + 1, b1);
        self.mem.set(a + 2, b2);
        self.mem.set(a + 3, b3);
        proof {
            reveal_with_fuel(le_value, 5);
        }
    }

    /// Copies `data` to the bytes from `addr` on.
    pub fn copy_from_slice(&mut self, data: &[u8], addr: Addr)
        requires
            addr.0 + data@.len() <= old(self)@.len(),
        ensures
            final(self)@ == old(self)@.take(addr.0 as int) + data@ + old(self)@.skip(addr.0 + data@.len()),
    {
        let a = addr.0 as usize;
        let n = self.mem.len();
        assert(a + data@.len() <= n);
        let mut i: usize = 0;
        while i < data.len()
            invariant
                a == addr.0,
                a + data@.len() <= old(self)@.len(),
                self@.len() == old(self)@.len(),
                i <= data@.len(),
                a + data@.len() <= usize::MAX,
                forall|k: int| 0 <= k < a ==> self@[k] == old(self)@[k],
                forall|k: int| 0 <= k < i ==> self@[a + k] == data@[k],
                forall|k: int| a + i <= k < self@.len() ==> self@[k] == old(self)@[k],
            decreases data@.len() - i,
        {
            self.mem.set(a + i, data[i]);
            i = i + 1;
        }
        assert(self@ =~= old(self)@.take(addr.0 as int) + data@ + old(self)@.skip(addr.0 + data@.len()));
    }
}

// ---------------------------------------------------------------------------
// The cache levels: eight-way set associative, least recently used
// replacement, keyed by cache line address. The nominal sizes above are
// 250, 500 and 2000 lines of 64 bytes; each level holds the capacity that
// `associative_cache` offers just above that (256, 512 and 2048 lines).
/// The first-level cache.
#[verifier::external_body]
pub struct L1Cache {
    c: AssociativeCache<Addr, WithLruTimestamp<()>, Capacity256, HashEightWay, LruReplacement>,
}

/// The second-level cache.
#[verifier::external_body]
pub struct L2Cache {
    c: AssociativeCache<Addr, WithLruTimestamp<()>, Capacity512, HashEightWay, LruReplacement>,
}

/// The third-level cache.
#[verifier::external_body]
pub struct L3Cache {
    c: AssociativeCache<Addr, WithLruTimestamp<()>, Capacity2048, HashEightWay, LruReplacement>,
}

/// The lines the first-level cache holds.
pub uninterp spec fn l1_lines(c: L1Cache) -> Set<Addr>;

/// The lines the second-level cache holds.
pub uninterp spec fn l2_lines(c: L2Cache) -> Set<Addr>;

/// The lines the third-level cache holds.
pub uninterp spec fn l3_lines(c: L3Cache) -> Set<Addr>;

/// Inserting `a` into a level holding `before` left `after`, and `evicted`
/// is the line it displaced (`a` itself when it was there already).
pub open spec fn level_insert(before: Set<Addr>, after: Set<Addr>, a: Addr, evicted: Option<Addr>) -> bool {
    match evicted {
        None => !before.contains(a) && after == before.insert(a),
        Some(e) => before.contains(e) && after == before.remove(e).insert(a),
    }
}

/// `AssociativeCache::default`: an empty cache.
#[verifier::external_body]
fn l1_new() -> (r: L1Cache)
    ensures
        l1_lines(r) == Set::<Addr>::empty(),
{
    L1Cache { c: AssociativeCache::default() }
}

/// `AssociativeCache::get`: whether the line is cached (a hit also refreshes
/// its timestamp, which only steers later replacement).
#[verifier::external_body]
fn l1_contains(c: &L1Cache, a: Addr) -> (r: bool)
    ensures
        r == l1_lines(*c).contains(a),
{
    c.c.get(&a).is_some()
}

/// `AssociativeCache::insert`: caches the line, giving back the key of the
/// entry it replaced. Which entry of the set is replaced depends on the
/// timestamps of earlier accesses, and is left open.
#[verifier::external_body]
fn l1_insert(c: &mut L1Cache, a: Addr) -> (r: Option<Addr>)
    ensures
        level_insert(l1_lines(*old(c)), l1_lines(*final(c)), a, r),
{
    c.c.insert(a, WithLruTimestamp::new(())).map(|(k, _)| k)
}

/// `AssociativeCache::default`: an empty cache.
#[verifier::external_body]
fn l2_new() -> (r: L2Cache)
    ensures
        l2_lines(r) == Set::<Addr>::empty(),
{
    L2Cache { c: AssociativeCache::default() }
}

/// `AssociativeCache::get`: whether the line is cached.
#[verifier::external_body]
fn l2_contains(c: &L2Cache, a: Addr) -> (r: bool)
    ensures
        r == l2_lines(*c).contains(a),
{
    c.c.get(&a).is_some()
}

/// `AssociativeCache::insert`: caches the line, giving back the key of the
/// entry it replaced, which the contract leaves open.
#[verifier::external_body]
fn l2_insert(c: &mut L2Cache, a: Addr) -> (r: Option<Addr>)
    ensures
        level_insert(l2_lines(*old(c)), l2_lines(*final(c)), a, r),
{
    c.c.insert(a, WithLruTimestamp::new(())).map(|(k, _)| k)
}

/// `AssociativeCache::default`: an empty cache.
#[verifier::external_body]
fn l3_new() -> (r: L3Cache)
    ensures
        l3_lines(r) == Set::<Addr>::empty(),
{
    L3Cache { c: AssociativeCache::default() }
}

/// `AssociativeCache::get`: whether the line is cached.
#[verifier::external_body]
fn l3_contains(c: &L3Cache, a: Addr) -> (r: bool)
    ensures
        r == l3_lines(*c).contains(a),
{
    c.c.get(&a).is_some()
}

/// `AssociativeCache::insert`: caches the line, giving back the key of the
/// entry it replaced, which the contract leaves open.
#[verifier::external_body]
fn l3_insert(c: &mut L3Cache, a: Addr) -> (r: Option<Addr>)
    ensures
        level_insert(l3_lines(*old(c)), l3_lines(*final(c)), a, r),
{
    c.c.insert(a, WithLruTimestamp::new(())).map(|(k, _)| k)
}

// ---------------------------------------------------------------------------
/// A memory access in progress: `current` cycles spent of `end`.
#[derive(Debug, Copy, Clone, PartialEq, Eq, Structural)]
pub struct Pending {
    pub tag: Tag,
    pub current: u64,
    pub end: u64,
}

/// The cycles an access takes, by the first level that holds its line.
pub open spec fn access_latency(in_l1: bool, in_l2: bool, in_l3: bool) -> u64 {
    if in_l1 {
        L1_LATENCY
    } else if in_l2 {
        L2_LATENCY
    } else if in_l3 {
        L3_LATENCY
    } else {
        DRAM_LATENCY
    }
}

/// An access costs the latency of the first level that holds its line: 5
/// cycles from L1, 20 from L2, 40 from L3, 400 from main memory; a level
/// further out never answers faster.
pub proof fn lemma_latency_by_level(in_l1: bool, in_l2: bool, in_l3: bool)
    ensures
        in_l1 ==> access_latency(in_l1, in_l2, in_l3) == 5,
        !in_l1 && in_l2 ==> access_latency(in_l1, in_l2, in_l3) == 20,
        !in_l1 && !in_l2 && in_l3 ==> access_latency(in_l1, in_l2, in_l3) == 40,
        !in_l1 && !in_l2 && !in_l3 ==> access_latency(in_l1, in_l2, in_l3) == 400,
        in_l1 ==> access_latency(in_l1, in_l2, in_l3) == L1_LATENCY,
        !in_l1 && in_l2 ==> access_latency(in_l1, in_l2, in_l3) == L2_LATENCY,
        !in_l1 && !in_l2 && in_l3 ==> access_latency(in_l1, in_l2, in_l3) == L3_LATENCY,
        !in_l1 && !in_l2 && !in_l3 ==> access_latency(in_l1, in_l2, in_l3) == DRAM_LATENCY,
        access_latency(true, in_l2, in_l3) <= access_latency(false, true, in_l3),
        access_latency(false, true, in_l3) <= access_latency(false, false, true),
        access_latency(false, false, true) <= access_latency(false, false, false),
{
}

/// `p` one cycle later.
pub open spec fn ticked(p: Pending) -> Pending {
    Pending { current: (p.current + 1) as u64, ..p }
}

/// The position of the first access of `tag` in `ps`, if any.
pub open spec fn is_first_pending(ps: Seq<Pending>, tag: Tag, i: int) -> bool {
    &&& 0 <= i < ps.len()
    &&& ps[i].tag == tag
    &&& forall|j: int| 0 <= j < i ==> ps[j].tag != tag
}

/// `ps` with entry `i` replaced by the last one.
pub open spec fn swap_removed(ps: Seq<Pending>, i: int) -> Seq<Pending> {
    ps.update(i, ps.last()).drop_last()
}

/// Main memory behind three levels of cache, with the accesses in flight.
pub struct MemoryHierarchy {
    pub main: MainMemory,
    pub l1: L1Cache,
    pub l2: L2Cache,
    pub l3: L3Cache,
    pub pending_fetches: Vec<Pending>,
}

impl MemoryHierarchy {
    /// Main memory.
    pub open spec fn main_mem(&self) -> MainMemory {
        self.main
    }

    /// The lines of the first level.
    pub open spec fn l1(&self) -> Set<Addr> {
        l1_lines(self.l1)
    }

    /// The lines of the second level.
    pub open spec fn l2(&self) -> Set<Addr> {
        l2_lines(self.l2)
    }

    /// The lines of the third level.
    pub open spec fn l3(&self) -> Set<Addr> {
        l3_lines(self.l3)
    }

    /// The accesses in flight, oldest first.
    pub open spec fn pending(&self) -> Seq<Pending> {
        self.pending_fetches@
    }

    /// `new` holds `line` in the first level, having displaced `e1` there,
    /// `e1` having displaced `e2` from the second level and `e2` `e3` from
    /// the third.
    pub open spec fn promoted(&self, new: &MemoryHierarchy, line: Addr, e1: Option<Addr>, e2: Option<Addr>, e3: Option<Addr>) -> bool {
        &&& level_insert(self.l1(), new.l1(), line, e1)
        &&& match e1 {
            None => new.l2() == self.l2() && new.l3() == self.l3(),
            Some(x) => {
                &&& level_insert(self.l2(), new.l2(), x, e2)
                &&& match e2 {
                    None => new.l3() == self.l3(),
                    Some(y) => level_insert(self.l3(), new.l3(), y, e3),
                }
            },
        }
    }

    /// No access in flight has spent more than `k` cycles.
    pub open spec fn pending_bounded(&self, k: u64) -> bool {
        forall|i: int| 0 <= i < self.pending().len() ==> (#[trigger] self.pending()[i]).current <= k
    }

    /// `mem` behind empty caches, with nothing in flight.
    pub fn new(mem: MainMemory) -> (r: Self)
        ensures
            r.main_mem() == mem,
            r.l1() == Set::<Addr>::empty(),
            r.l2() == Set::<Addr>::empty(),
            r.l3() == Set::<Addr>::empty(),
            r.pending() == Seq::<Pending>::empty(),
    {
        Self { main: mem, l1: l1_new(), l2: l2_new(), l3: l3_new(), pending_fetches: Vec::new() }
    }

    /// Whether the access of `tag` has taken its time. An access not yet in
    /// flight starts now, with the latency of the first level holding its line.
    pub fn access_complete(&mut self, tag: Tag, addr: Addr) -> (r: bool)
        ensures
            final(self).main_mem() == old(self).main_mem(),
            final(self).l1() == old(self).l1(),
            final(self).l2() == old(self).l2(),
            final(self).l3() == old(self).l3(),
            forall|k: u64| old(self).pending_bounded(k) ==> final(self).pending_bounded(k),
            (exists|i: int| is_first_pending(old(self).pending(), tag, i)) ==> {
                let i = choose|i: int| is_first_pending(old(self).pending(), tag, i);
                &&& r == (old(self).pending()[i].current >= old(self).pending()[i].end)
                &&& final(self).pending() == old(self).pending()
            },
            !(exists|i: int| is_first_pending(old(self).pending(), tag, i)) ==> {
                let line = Addr((addr.0 - addr.0 % 64) as u32);
                &&& !r
                &&& final(self).pending() == old(self).pending().push(
                    Pending {
                        tag,
                        current: 0,
                        end: access_latency(
                            old(self).l1().contains(line),
                            old(self).l2().contains(line),
                            old(self).l3().contains(line),
                        ),
                    },
                )
            },
    {
        let mut i: usize = 0;
        while i < self.pending_fetches.len()
            invariant
                i <= self.pending_fetches@.len(),
                self.pending_fetches@ == old(self).pending_fetches@,
                *self == *old(self),
                forall|j: int| 0 <= j < i ==> self.pending_fetches@[j].tag != tag,
            decreases self.pending_fetches@.len() - i,
        {
            if self.pending_fetches[i].tag.0 == tag.0 {
                let p = self.pending_fetches[i];
                proof {
                    assert(is_first_pending(old(self).pending(), tag, i as int));
                    let k = choose|k: int| is_first_pending(old(self).pending(), tag, k);
                    assert(k == i);
                }
                return p.current >= p.end;
            }
            i = i + 1;
        }
        let line = addr.to_cache_line();
        let latency = if l1_contains(&self.l1, line) {
            L1_LATENCY
        } else if l2_contains(&self.l2, line) {
            L2_LATENCY
        } else if l3_contains(&self.l3, line) {
            L3_LATENCY
        } else {
            DRAM_LATENCY
        };
        self.pending_fetches.push(Pending { tag, current: 0, end: latency });
        proof {
            assert forall|k: u64| old(self).pending_bounded(k) implies self.pending_bounded(k) by {
                assert forall|j: int| 0 <= j < self.pending().len() implies (#[trigger] self.pending()[j]).current <= k by {
                    if j < old(self).pending().len() {
                        assert(self.pending()[j] == old(self).pending()[j]);
                    }
                }
            }
        }
        false
    }

    /// Ends the access of `tag` (the first in flight) and brings its line into
    /// the first level; a line displaced from a level moves down to the next.
    pub fn finish_access(&mut self, tag: Tag, addr: Addr)
        requires
            exists|i: int| is_first_pending(old(self).pending(), tag, i),
        ensures
            final(self).main_mem() == old(self).main_mem(),
            ({
                let i = choose|i: int| is_first_pending(old(self).pending(), tag, i);
                final(self).pending() == swap_removed(old(self).pending(), i)
            }),
            forall|k: u64| old(self).pending_bounded(k) ==> final(self).pending_bounded(k),
            exists|e1: Option<Addr>, e2: Option<Addr>, e3: Option<Addr>|
                #[trigger] old(self).promoted(final(self), Addr((addr.0 - addr.0 % 64) as u32), e1, e2, e3),
    {
        let ghost i0 = choose|i: int| is_first_pending(old(self).pending(), tag, i);
        let mut i: usize = 0;
        while i < self.pending_fetches.len() && self.pending_fetches[i].tag.0 != tag.0
            invariant
                is_first_pending(old(self).pending(), tag, i0),
                i <= i0,
                *self == *old(self),
            decreases self.pending_fetches@.len() - i,
        {
            i = i + 1;
        }
        self.pending_fetches.swap_remove(i);
        proof {
            assert(self.pending() =~= swap_removed(old(self).pending(), i0));
            assert forall|k: u64| old(self).pending_bounded(k) implies self.pending_bounded(k) by {
                assert forall|j: int| 0 <= j < self.pending().len() implies (#[trigger] self.pending()[j]).current <= k by {
                    if j == i0 {
                        assert(self.pending()[j] == old(self).pending()[old(self).pending().len() - 1]);
                    } else {
                        assert(self.pending()[j] == old(self).pending()[j]);
                    }
                }
            }
        }
        let line = addr.to_cache_line();
        assert(line == Addr((addr.0 - addr.0 % 64) as u32));
        let e1 = l1_insert(&mut self.l1, line);
        let mut e2: Option<Addr> = None;
        let mut e3: Option<Addr> = None;
        if let Some(evicted) = e1 {
            e2 = l2_insert(&mut self.l2, evicted);
            if let Some(evicted2) = e2 {
                e3 = l3_insert(&mut self.l3, evicted2);
            }
        }
        assert(old(self).promoted(self, line, e1, e2, e3));
    }

    /// One cycle passes for every access in flight.
    pub fn tick(&mut self)
        requires
            forall|i: int| 0 <= i < old(self).pending().len() ==> (#[trigger] old(self).pending()[i]).current < u64::MAX,
        ensures
            final(self).main_mem() == old(self).main_mem(),
            final(self).l1() == old(self).l1(),
            final(self).l2() == old(self).l2(),
            final(self).l3() == old(self).l3(),
            final(self).pending().len() == old(self).pending().len(),
            forall|i: int|
                0 <= i < old(self).pending().len() ==> #[trigger] final(self).pending()[i] == ticked(old(self).pending()[i]),
    {
        let mut i: usize = 0;
        while i < self.pending_fetches.len()
            invariant
                i <= self.pending_fetches@.len(),
                self.pending_fetches@.len() == old(self).pending_fetches@.len(),
                forall|j: int| 0 <= j < old(self).pending().len() ==> (#[trigger] old(self).pending()[j]).current < u64::MAX,
                self.main == old(self).main,
                self.l1 == old(self).l1,
                self.l2 == old(self).l2,
                self.l3 == old(self).l3,
                forall|j: int| 0 <= j < i ==> #[trigger] self.pending_fetches@[j] == ticked(old(self).pending_fetches@[j]),
                forall|j: int| i <= j < self.pending_fetches@.len() ==> #[trigger] self.pending_fetches@[j] == old(self).pending_fetches@[j],
            decreases self.pending_fetches@.len() - i,
        {
            let p = self.pending_fetches[i];
            assert(p == old(self).pending_fetches@[i as int]);
            assert(old(self).pending()[i as int].current < u64::MAX);
            self.pending_fetches.set(i, Pending { current: p.current + 1, ..p });
            i = i + 1;
        }
    }
}

impl Clone for MemoryHierarchy {
    /// A copy of main memory behind empty caches, with nothing in flight.
    fn clone(&self) -> (r: Self)
        ensures
            r.main_mem()@ == self.main_mem()@,
            r.l1() == Set::<Addr>::empty(),
            r.l2() == Set::<Addr>::empty(),
            r.l3() == Set::<Addr>::empty(),
            r.pending() == Seq::<Pending>::empty(),
    {
        Self { main: self.main.clone(), l1: l1_new(), l2: l2_new(), l3: l3_new(), pending_fetches: Vec::new() }
    }
}

} // verus!
