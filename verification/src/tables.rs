//! The hash tables of the simulator, kept in `hashbrown` maps. Each table is
//! a struct holding the map; its contents are named, and every operation the
//! simulator performs on it is a small wrapper whose contract states, over
//! that name, what `hashbrown` does.
use crate::inst::{ArchReg, Label, Pc, PhysReg, Tag};
use crate::regs::BranchInfo;
use vstd::prelude::*;

verus! {

/// Whether `t` is not younger than `tag`.
pub fn tag_not_after(t: Tag, tag: Tag) -> (r: bool)
    ensures
        r == (t.0 <= tag.0),
{
    t.0 <= tag.0
}

/// The tags not younger than `tag`.
pub open spec fn tags_not_after(tag: Tag) -> Set<Tag> {
    Set::new(|t: Tag| t.0 <= tag.0)
}

// ---------------------------------------------------------------------------
/// Values of architectural registers.
#[verifier::external_body]
pub struct RegMap {
    m: hashbrown::HashMap<ArchReg, u32>,
}

/// What a `RegMap` holds.
pub uninterp spec fn reg_map(m: RegMap) -> Map<ArchReg, u32>;

/// `hashbrown::HashMap::new`: an empty map.
#[verifier::external_body]
pub(crate) fn reg_map_new() -> (res: RegMap)
    ensures
        reg_map(res).dom() == Set::<ArchReg>::empty(),
{
    RegMap { m: hashbrown::HashMap::new() }
}

/// `hashbrown::HashMap::get`: the value stored for `k`, if any.
#[verifier::external_body]
pub(crate) fn reg_map_get(m: &RegMap, k: ArchReg) -> (res: Option<u32>)
    ensures
        res == (if reg_map(*m).contains_key(k) {
            Some(reg_map(*m)[k])
        } else {
            None
        }),
{
    m.m.get(&k).copied()
}

/// `hashbrown::HashMap::insert`: stores `v` for `k`, replacing any value.
#[verifier::external_body]
pub(crate) fn reg_map_insert(m: &mut RegMap, k: ArchReg, v: u32)
    ensures
        reg_map(*final(m)) == reg_map(*old(m)).insert(k, v),
{
    m.m.insert(k, v);
}

// ---------------------------------------------------------------------------
/// The register alias table: the physical register of each architectural one.
#[verifier::external_body]
pub struct AliasMap {
    m: hashbrown::HashMap<ArchReg, PhysReg>,
}

/// What an `AliasMap` holds.
pub uninterp spec fn alias_map(m: AliasMap) -> Map<ArchReg, PhysReg>;

/// `hashbrown::HashMap::new`: an empty map.
#[verifier::external_body]
pub(crate) fn alias_map_new() -> (res: AliasMap)
    ensures
        alias_map(res).dom() == Set::<ArchReg>::empty(),
{
    AliasMap { m: hashbrown::HashMap::new() }
}

/// `hashbrown::HashMap::get`: the value stored for `k`, if any.
#[verifier::external_body]
pub(crate) fn alias_map_get(m: &AliasMap, k: ArchReg) -> (res: Option<PhysReg>)
    ensures
        res == (if alias_map(*m).contains_key(k) {
            Some(alias_map(*m)[k])
        } else {
            None
        }),
{
    m.m.get(&k).copied()
}

/// `hashbrown::HashMap::insert`: stores `v` for `k`, replacing any value.
#[verifier::external_body]
pub(crate) fn alias_map_insert(m: &mut AliasMap, k: ArchReg, v: PhysReg)
    ensures
        alias_map(*final(m)) == alias_map(*old(m)).insert(k, v),
{
    m.m.insert(k, v);
}

/// `hashbrown::HashMap::clone`: a map with the same contents.
#[verifier::external_body]
pub(crate) fn alias_map_clone(m: &AliasMap) -> (res: AliasMap)
    ensures
        alias_map(res) == alias_map(*m),
{
    AliasMap { m: m.m.clone() }
}

/// `hashbrown::HashMap::iter`: every entry once, in an order the contract leaves open.
#[verifier::external_body]
pub(crate) fn alias_map_entries(m: &AliasMap) -> (res: Vec<(ArchReg, PhysReg)>)
    ensures
        forall|k: ArchReg| #[trigger] alias_map(*m).contains_key(k) ==> exists|i: int| 0 <= i < res@.len() && res@[i].0 == k,
        forall|i: int| 0 <= i < res@.len() ==> alias_map(*m).contains_key(#[trigger] res@[i].0) && alias_map(
            *m,
        )[res@[i].0] == res@[i].1,
        forall|i: int, j: int| 0 <= i < j < res@.len() ==> res@[i].0 != res@[j].0,
{
    m.m.iter().map(|(k, v)| (*k, *v)).collect()
}

// ---------------------------------------------------------------------------
/// Branches in flight, by tag.
#[verifier::external_body]
pub struct BranchMap {
    m: hashbrown::HashMap<Tag, BranchInfo>,
}

/// What a `BranchMap` holds.
pub uninterp spec fn branch_map(m: BranchMap) -> Map<Tag, BranchInfo>;

/// `hashbrown::HashMap::new`: an empty map.
#[verifier::external_body]
pub(crate) fn branch_map_new() -> (res: BranchMap)
    ensures
        branch_map(res).dom() == Set::<Tag>::empty(),
{
    BranchMap { m: hashbrown::HashMap::new() }
}

/// `hashbrown::HashMap::get`: the value stored for `k`, if any.
#[verifier::external_body]
pub(crate) fn branch_map_get(m: &BranchMap, k: Tag) -> (res: Option<&BranchInfo>)
    ensures
        res == (if branch_map(*m).contains_key(k) {
            Some(&branch_map(*m)[k])
        } else {
            None
        }),
{
    m.m.get(&k)
}

/// `hashbrown::HashMap::insert`: stores `v` for `k`, replacing any value.
#[verifier::external_body]
pub(crate) fn branch_map_insert(m: &mut BranchMap, k: Tag, v: BranchInfo)
    ensures
        branch_map(*final(m)) == branch_map(*old(m)).insert(k, v),
{
    m.m.insert(k, v);
}

/// `hashbrown::HashMap::remove`: takes out the value stored for `k`, if any.
#[verifier::external_body]
pub(crate) fn branch_map_remove(m: &mut BranchMap, k: Tag) -> (res: Option<BranchInfo>)
    ensures
        branch_map(*final(m)) == branch_map(*old(m)).remove(k),
        res == (if branch_map(*old(m)).contains_key(k) {
            Some(branch_map(*old(m))[k])
        } else {
            None
        }),
{
    m.m.remove(&k)
}

/// `hashbrown::HashMap::keys`: every key once, in an order the contract leaves open.
#[verifier::external_body]
pub(crate) fn branch_map_keys(m: &BranchMap) -> (res: Vec<Tag>)
    ensures
        forall|k: Tag| #[trigger] branch_map(*m).contains_key(k) ==> exists|i: int| 0 <= i < res@.len() && res@[i] == k,
        forall|i: int| 0 <= i < res@.len() ==> branch_map(*m).contains_key(#[trigger] res@[i]),
        forall|i: int, j: int| 0 <= i < j < res@.len() ==> res@[i] != res@[j],
{
    m.m.keys().copied().collect()
}

/// `hashbrown::HashMap::retain` keeping the branches not younger than `tag`.
#[verifier::external_body]
pub(crate) fn branch_map_retain_not_after(m: &mut BranchMap, tag: Tag)
    ensures
        branch_map(*final(m)) == branch_map(*old(m)).restrict(tags_not_after(tag)),
{
    m.m.retain(|t, _| tag_not_after(*t, tag))
}

// ---------------------------------------------------------------------------
/// Program counters by program counter (the branch target buffer).
#[verifier::external_body]
pub struct PcTable {
    m: hashbrown::HashMap<Pc, Pc>,
}

/// What a `PcTable` holds.
pub uninterp spec fn pc_table(m: PcTable) -> Map<Pc, Pc>;

/// `hashbrown::HashMap::new`: an empty map.
#[verifier::external_body]
pub(crate) fn pc_table_new() -> (res: PcTable)
    ensures
        pc_table(res).dom() == Set::<Pc>::empty(),
{
    PcTable { m: hashbrown::HashMap::new() }
}

/// `hashbrown::HashMap::get`: the value stored for `k`, if any.
#[verifier::external_body]
pub(crate) fn pc_table_get(m: &PcTable, k: Pc) -> (res: Option<Pc>)
    ensures
        res == (if pc_table(*m).contains_key(k) {
            Some(pc_table(*m)[k])
        } else {
            None
        }),
{
    m.m.get(&k).copied()
}

/// `hashbrown::HashMap::insert`: stores `v` for `k`, replacing any value.
#[verifier::external_body]
pub(crate) fn pc_table_insert(m: &mut PcTable, k: Pc, v: Pc)
    ensures
        pc_table(*final(m)) == pc_table(*old(m)).insert(k, v),
{
    m.m.insert(k, v);
}

// ---------------------------------------------------------------------------
/// Saturating counters by program counter.
#[verifier::external_body]
pub struct CounterTable {
    m: hashbrown::HashMap<Pc, i32>,
}

/// What a `CounterTable` holds.
pub uninterp spec fn counter_table(m: CounterTable) -> Map<Pc, i32>;

/// `hashbrown::HashMap::new`: an empty map.
#[verifier::external_body]
pub(crate) fn counter_table_new() -> (res: CounterTable)
    ensures
        counter_table(res).dom() == Set::<Pc>::empty(),
{
    CounterTable { m: hashbrown::HashMap::new() }
}

/// `hashbrown::HashMap::get`: the value stored for `k`, if any.
#[verifier::external_body]
pub(crate) fn counter_table_get(m: &CounterTable, k: Pc) -> (res: Option<i32>)
    ensures
        res == (if counter_table(*m).contains_key(k) {
            Some(counter_table(*m)[k])
        } else {
            None
        }),
{
    m.m.get(&k).copied()
}

/// `hashbrown::HashMap::insert`: stores `v` for `k`, replacing any value.
#[verifier::external_body]
pub(crate) fn counter_table_insert(m: &mut CounterTable, k: Pc, v: i32)
    ensures
        counter_table(*final(m)) == counter_table(*old(m)).insert(k, v),
{
    m.m.insert(k, v);
}

// ---------------------------------------------------------------------------
/// Program counters by label.
#[verifier::external_body]
pub struct LabelTable {
    m: hashbrown::HashMap<Label, Pc>,
}

/// What a `LabelTable` holds, by label text.
pub uninterp spec fn label_table(m: LabelTable) -> Map<Seq<char>, Pc>;

/// `hashbrown::HashMap::new`: an empty map.
#[verifier::external_body]
pub(crate) fn label_table_new() -> (res: LabelTable)
    ensures
        label_table(res).dom() == Set::<Seq<char>>::empty(),
{
    LabelTable { m: hashbrown::HashMap::new() }
}

/// `hashbrown::HashMap::get`: the value stored for `k`, if any.
#[verifier::external_body]
pub(crate) fn label_table_get(m: &LabelTable, k: &Label) -> (res: Option<Pc>)
    ensures
        res == (if label_table(*m).contains_key(k@) {
            Some(label_table(*m)[k@])
        } else {
            None
        }),
{
    m.m.get(k).copied()
}

/// `hashbrown::HashMap::insert`: stores `v` for `k`, replacing any value.
#[verifier::external_body]
pub(crate) fn label_table_insert(m: &mut LabelTable, k: Label, v: Pc)
    ensures
        label_table(*final(m)) == label_table(*old(m)).insert(k@, v),
{
    m.m.insert(k, v);
}

// ---------------------------------------------------------------------------
/// Program counters by tag.
#[verifier::external_body]
pub struct TagPcTable {
    m: hashbrown::HashMap<Tag, Pc>,
}

/// What a `TagPcTable` holds.
pub uninterp spec fn tag_pc_table(m: TagPcTable) -> Map<Tag, Pc>;

/// `hashbrown::HashMap::new`: an empty map.
#[verifier::external_body]
pub(crate) fn tag_pc_table_new() -> (res: TagPcTable)
    ensures
        tag_pc_table(res).dom() == Set::<Tag>::empty(),
{
    TagPcTable { m: hashbrown::HashMap::new() }
}

/// `hashbrown::HashMap::get`: the value stored for `k`, if any.
#[verifier::external_body]
pub(crate) fn tag_pc_table_get(m: &TagPcTable, k: Tag) -> (res: Option<Pc>)
    ensures
        res == (if tag_pc_table(*m).contains_key(k) {
            Some(tag_pc_table(*m)[k])
        } else {
            None
        }),
{
    m.m.get(&k).copied()
}

/// `hashbrown::HashMap::insert`: stores `v` for `k`, replacing any value.
#[verifier::external_body]
pub(crate) fn tag_pc_table_insert(m: &mut TagPcTable, k: Tag, v: Pc)
    ensures
        tag_pc_table(*final(m)) == tag_pc_table(*old(m)).insert(k, v),
{
    m.m.insert(k, v);
}

/// `hashbrown::HashMap::remove`: takes out the value stored for `k`, if any.
#[verifier::external_body]
pub(crate) fn tag_pc_table_remove(m: &mut TagPcTable, k: Tag) -> (res: Option<Pc>)
    ensures
        tag_pc_table(*final(m)) == tag_pc_table(*old(m)).remove(k),
        res == (if tag_pc_table(*old(m)).contains_key(k) {
            Some(tag_pc_table(*old(m))[k])
        } else {
            None
        }),
{
    m.m.remove(&k)
}

/// `hashbrown::HashMap::retain` keeping the tags not younger than `tag`.
#[verifier::external_body]
pub(crate) fn tag_pc_table_retain_not_after(m: &mut TagPcTable, tag: Tag)
    ensures
        tag_pc_table(*final(m)) == tag_pc_table(*old(m)).restrict(tags_not_after(tag)),
{
    m.m.retain(|t, _| tag_not_after(*t, tag))
}

} // verus!
