use vstd::prelude::*;
use vstd::seq_lib::group_to_multiset_ensures;
use crate::text::{
    lemma_text_less_irreflexive, lemma_text_less_total, lemma_text_less_transitive, str_equal,
    text_before, text_less,
};

verus! {

/// A measured stage of loading, planning or drawing a model.
#[derive(Debug, Clone, Copy, PartialEq, Eq, Structural, Hash, PartialOrd, Ord)]
pub enum Stage {
    RuntimeModel3Read,
    RuntimeModel3Parse,
    RuntimeAssetResolve,
    RuntimeTextureDecode,
    RuntimeMocRead,
    RuntimeMocRevive,
    RuntimeModelAllocation,
    RuntimeModelInit,
    RuntimeModelUpdate,
    RuntimeMotionUpdate,
    RuntimeSnapshotExtract,
    RuntimeLoadSnapshot,
    RenderPlanTotal,
    RenderModelCtxBuild,
    RenderOrderSort,
    RenderMaskDedup,
    RenderDrawCommandBuild,
    RenderDispatchTotal,
    RenderMaskLookup,
    RenderMainDrawDispatch,
    WgpuRendererInit,
    WgpuPipelineCreation,
    WgpuPrepareRender,
    WgpuTextureCacheHit,
    WgpuTextureCacheMiss,
    WgpuTextureUpload,
    WgpuSceneTopologyHit,
    WgpuSceneTopologyMiss,
    WgpuPositionUpload,
    WgpuBufferRebuild,
    WgpuUniformCapacityGrow,
    WgpuOffscreenResize,
    WgpuMaskAtlasLayout,
    WgpuMaskAtlasRebuild,
    WgpuMaskPassEncode,
    WgpuMainPassEncode,
    WgpuPostProcessPassEncode,
    WgpuQueueSubmit,
    WgpuGpuTimestampSupport,
}

/// Number of stages.
pub const STAGE_COUNT: usize = 39;

/// The position of a stage in declaration order, which is the order stages sort in.
pub open spec fn stage_rank(stage: Stage) -> int {
    match stage {
        Stage::RuntimeModel3Read => 0,
        Stage::RuntimeModel3Parse => 1,
        Stage::RuntimeAssetResolve => 2,
        Stage::RuntimeTextureDecode => 3,
        Stage::RuntimeMocRead => 4,
        Stage::RuntimeMocRevive => 5,
        Stage::RuntimeModelAllocation => 6,
        Stage::RuntimeModelInit => 7,
        Stage::RuntimeModelUpdate => 8,
        Stage::RuntimeMotionUpdate => 9,
        Stage::RuntimeSnapshotExtract => 10,
        Stage::RuntimeLoadSnapshot => 11,
        Stage::RenderPlanTotal => 12,
        Stage::RenderModelCtxBuild => 13,
        Stage::RenderOrderSort => 14,
        Stage::RenderMaskDedup => 15,
        Stage::RenderDrawCommandBuild => 16,
        Stage::RenderDispatchTotal => 17,
        Stage::RenderMaskLookup => 18,
        Stage::RenderMainDrawDispatch => 19,
        Stage::WgpuRendererInit => 20,
        Stage::WgpuPipelineCreation => 21,
        Stage::WgpuPrepareRender => 22,
        Stage::WgpuTextureCacheHit => 23,
        Stage::WgpuTextureCacheMiss => 24,
        Stage::WgpuTextureUpload => 25,
        Stage::WgpuSceneTopologyHit => 26,
        Stage::WgpuSceneTopologyMiss => 27,
        Stage::WgpuPositionUpload => 28,
        Stage::WgpuBufferRebuild => 29,
        Stage::WgpuUniformCapacityGrow => 30,
        Stage::WgpuOffscreenResize => 31,
        Stage::WgpuMaskAtlasLayout => 32,
        Stage::WgpuMaskAtlasRebuild => 33,
        Stage::WgpuMaskPassEncode => 34,
        Stage::WgpuMainPassEncode => 35,
        Stage::WgpuPostProcessPassEncode => 36,
        Stage::WgpuQueueSubmit => 37,
        Stage::WgpuGpuTimestampSupport => 38,
    }
}

/// The stage at a position in declaration order.
pub open spec fn stage_at(rank: int) -> Stage {
    if rank == 0 {
        Stage::RuntimeModel3Read
    } else if rank == 1 {
        Stage::RuntimeModel3Parse
    } else if rank == 2 {
        Stage::RuntimeAssetResolve
    } else if rank == 3 {
        Stage::RuntimeTextureDecode
    } else if rank == 4 {
        Stage::RuntimeMocRead
    } else if rank == 5 {
        Stage::RuntimeMocRevive
    } else if rank == 6 {
        Stage::RuntimeModelAllocation
    } else if rank == 7 {
        Stage::RuntimeModelInit
    } else if rank == 8 {
        Stage::RuntimeModelUpdate
    } else if rank == 9 {
        Stage::RuntimeMotionUpdate
    } else if rank == 10 {
        Stage::RuntimeSnapshotExtract
    } else if rank == 11 {
        Stage::RuntimeLoadSnapshot
    } else if rank == 12 {
        Stage::RenderPlanTotal
    } else if rank == 13 {
        Stage::RenderModelCtxBuild
    } else if rank == 14 {
        Stage::RenderOrderSort
    } else if rank == 15 {
        Stage::RenderMaskDedup
    } else if rank == 16 {
        Stage::RenderDrawCommandBuild
    } else if rank == 17 {
        Stage::RenderDispatchTotal
    } else if rank == 18 {
        Stage::RenderMaskLookup
    } else if rank == 19 {
        Stage::RenderMainDrawDispatch
    } else if rank == 20 {
        Stage::WgpuRendererInit
    } else if rank == 21 {
        Stage::WgpuPipelineCreation
    } else if rank == 22 {
        Stage::WgpuPrepareRender
    } else if rank == 23 {
        Stage::WgpuTextureCacheHit
    } else if rank == 24 {
        Stage::WgpuTextureCacheMiss
    } else if rank == 25 {
        Stage::WgpuTextureUpload
    } else if rank == 26 {
        Stage::WgpuSceneTopologyHit
    } else if rank == 27 {
        Stage::WgpuSceneTopologyMiss
    } else if rank == 28 {
        Stage::WgpuPositionUpload
    } else if rank == 29 {
        Stage::WgpuBufferRebuild
    } else if rank == 30 {
        Stage::WgpuUniformCapacityGrow
    } else if rank == 31 {
        Stage::WgpuOffscreenResize
    } else if rank == 32 {
        Stage::WgpuMaskAtlasLayout
    } else if rank == 33 {
        Stage::WgpuMaskAtlasRebuild
    } else if rank == 34 {
        Stage::WgpuMaskPassEncode
    } else if rank == 35 {
        Stage::WgpuMainPassEncode
    } else if rank == 36 {
        Stage::WgpuPostProcessPassEncode
    } else if rank == 37 {
        Stage::WgpuQueueSubmit
    } else {
        Stage::WgpuGpuTimestampSupport
    }
}

/// The stage at a position in declaration order.
pub fn stage_at_rank(rank: usize) -> (r: Stage)
    requires
        rank < STAGE_COUNT,
    ensures
        r == stage_at(rank as int),
        stage_rank(r) == rank,
{
    match rank {
        0 => Stage::RuntimeModel3Read,
        1 => Stage::RuntimeModel3Parse,
        2 => Stage::RuntimeAssetResolve,
        3 => Stage::RuntimeTextureDecode,
        4 => Stage::RuntimeMocRead,
        5 => Stage::RuntimeMocRevive,
        6 => Stage::RuntimeModelAllocation,
        7 => Stage::RuntimeModelInit,
        8 => Stage::RuntimeModelUpdate,
        9 => Stage::RuntimeMotionUpdate,
        10 => Stage::RuntimeSnapshotExtract,
        11 => Stage::RuntimeLoadSnapshot,
        12 => Stage::RenderPlanTotal,
        13 => Stage::RenderModelCtxBuild,
        14 => Stage::RenderOrderSort,
        15 => Stage::RenderMaskDedup,
        16 => Stage::RenderDrawCommandBuild,
        17 => Stage::RenderDispatchTotal,
        18 => Stage::RenderMaskLookup,
        19 => Stage::RenderMainDrawDispatch,
        20 => Stage::WgpuRendererInit,
        21 => Stage::WgpuPipelineCreation,
        22 => Stage::WgpuPrepareRender,
        23 => Stage::WgpuTextureCacheHit,
        24 => Stage::WgpuTextureCacheMiss,
        25 => Stage::WgpuTextureUpload,
        26 => Stage::WgpuSceneTopologyHit,
        27 => Stage::WgpuSceneTopologyMiss,
        28 => Stage::WgpuPositionUpload,
        29 => Stage::WgpuBufferRebuild,
        30 => Stage::WgpuUniformCapacityGrow,
        31 => Stage::WgpuOffscreenResize,
        32 => Stage::WgpuMaskAtlasLayout,
        33 => Stage::WgpuMaskAtlasRebuild,
        34 => Stage::WgpuMaskPassEncode,
        35 => Stage::WgpuMainPassEncode,
        36 => Stage::WgpuPostProcessPassEncode,
        37 => Stage::WgpuQueueSubmit,
        _ => Stage::WgpuGpuTimestampSupport,
    }
}

/// Each stage sits at its own position.
pub proof fn lemma_stage_rank(stage: Stage)
    ensures
        0 <= stage_rank(stage) < STAGE_COUNT,
        stage_at(stage_rank(stage)) == stage,
{
}


/// Accounting of an empty probe: nothing is recorded.
#[derive(Debug, Default, Clone, Copy)]
pub struct NoopProbe;

/// The platform a run was measured on.
#[derive(Debug, Clone, PartialEq, Eq)]
pub struct EnvironmentReport {
    pub os: String,
    pub arch: String,
    pub rust_debug_assertions: bool,
}

/// The counter value of each name: a later entry of a name stands for it.
pub open spec fn entries_map(entries: Seq<(String, u64)>) -> Map<Seq<char>, u64>
    decreases entries.len(),
{
    if entries.len() == 0 {
        Map::empty()
    } else {
        entries_map(entries.drop_last()).insert(entries.last().0@, entries.last().1)
    }
}

/// Named counters, summed per name.
#[derive(Debug, Default, PartialEq, Eq)]
pub struct CounterTable {
    entries: Vec<(String, u64)>,
}

impl View for CounterTable {
    type V = Map<Seq<char>, u64>;

    closed spec fn view(&self) -> Map<Seq<char>, u64> {
        entries_map(self.entries@)
    }
}

/// The value of a counter in a table, zero where it is absent.
pub open spec fn counter_or_zero(table: Map<Seq<char>, u64>, name: Seq<char>) -> u64 {
    if table.contains_key(name) {
        table[name]
    } else {
        0
    }
}

/// Position of the last entry named `name`, if any.
fn last_entry_index(entries: &Vec<(String, u64)>, name: &str) -> (r: Option<usize>)
    ensures
        match r {
            Some(i) => i < entries@.len() && entries@[i as int].0@ == name@ && forall|j: int|
                i < j < entries@.len() ==> #[trigger] entries@[j].0@ != name@,
            None => forall|j: int| 0 <= j < entries@.len() ==> #[trigger] entries@[j].0@ != name@,
        },
{
    let mut k: usize = entries.len();
    while k > 0
        invariant
            k <= entries@.len(),
            forall|j: int| k <= j < entries@.len() ==> #[trigger] entries@[j].0@ != name@,
        decreases k,
    {
        if str_equal(entries[k - 1].0.as_str(), name) {
            return Some(k - 1);
        }
        k = k - 1;
    }
    None
}

/// Where no entry from `i` on is named `name`, the table of the first `i` entries
/// agrees with the whole table on `name`.
proof fn lemma_entries_map_suffix(entries: Seq<(String, u64)>, i: int, name: Seq<char>)
    requires
        0 <= i <= entries.len(),
        forall|j: int| i <= j < entries.len() ==> #[trigger] entries[j].0@ != name,
    ensures
        entries_map(entries).contains_key(name) == entries_map(entries.take(i)).contains_key(name),
        entries_map(entries).contains_key(name) ==> entries_map(entries)[name] == entries_map(
            entries.take(i),
        )[name],
    decreases entries.len() - i,
{
    if i < entries.len() {
        assert(entries.drop_last() =~= entries.take(entries.len() - 1));
        lemma_entries_map_suffix(entries.drop_last(), i, name);
        assert(entries.drop_last().take(i) =~= entries.take(i));
    } else {
        assert(entries.take(i) =~= entries);
    }
}

/// The last entry of a name carries its value.
proof fn lemma_entries_map_last(entries: Seq<(String, u64)>, i: int, name: Seq<char>)
    requires
        0 <= i < entries.len(),
        entries[i].0@ == name,
        forall|j: int| i < j < entries.len() ==> #[trigger] entries[j].0@ != name,
    ensures
        entries_map(entries).contains_key(name),
        entries_map(entries)[name] == entries[i].1,
{
    lemma_entries_map_suffix(entries, i + 1, name);
    assert(entries.take(i + 1).drop_last() =~= entries.take(i));
}

/// Changing the value of the last entry of a name changes only that name.
proof fn lemma_entries_map_update(entries: Seq<(String, u64)>, i: int, entry: (String, u64))
    requires
        0 <= i < entries.len(),
        entries[i].0@ == entry.0@,
        forall|j: int| i < j < entries.len() ==> #[trigger] entries[j].0@ != entry.0@,
    ensures
        entries_map(entries.update(i, entry)) == entries_map(entries).insert(entry.0@, entry.1),
    decreases entries.len(),
{
    let updated = entries.update(i, entry);
    if i == entries.len() - 1 {
        assert(updated.drop_last() =~= entries.drop_last());
        assert(entries_map(updated) =~= entries_map(entries).insert(entry.0@, entry.1));
    } else {
        assert(updated.drop_last() =~= entries.drop_last().update(i, entry));
        lemma_entries_map_update(entries.drop_last(), i, entry);
        assert(entries_map(updated) =~= entries_map(entries).insert(entry.0@, entry.1));
    }
}

/// Inserting an entry of a name that no entry has adds that name to the table.
proof fn lemma_entries_map_insert(entries: Seq<(String, u64)>, k: int, entry: (String, u64))
    requires
        0 <= k <= entries.len(),
        forall|j: int| 0 <= j < entries.len() ==> #[trigger] entries[j].0@ != entry.0@,
    ensures
        entries_map(entries.insert(k, entry)) == entries_map(entries).insert(entry.0@, entry.1),
    decreases entries.len(),
{
    let inserted = entries.insert(k, entry);
    if k == entries.len() {
        assert(inserted.drop_last() =~= entries);
    } else {
        assert(inserted.drop_last() =~= entries.drop_last().insert(k, entry));
        assert(entries[entries.len() - 1].0@ != entry.0@);
        lemma_entries_map_insert(entries.drop_last(), k, entry);
        assert(inserted.last() == entries.last());
        assert(entries_map(inserted) =~= entries_map(entries).insert(entry.0@, entry.1));
    }
}

impl CounterTable {
    /// The entries are sorted by name, each name once.
    #[verifier::type_invariant]
    spec fn names_sorted(self) -> bool {
        forall|i: int, j: int|
            0 <= i < j < self.entries@.len() ==> text_less(self.entries@[i].0@, self.entries@[j].0@)
    }

    /// No counter.
    pub fn new() -> (r: Self)
        ensures
            r@ == Map::<Seq<char>, u64>::empty(),
    {
        CounterTable { entries: Vec::new() }
    }

    /// The value of a counter, zero where it was never added to.
    pub fn get(&self, name: &str) -> (r: u64)
        ensures
            r == counter_or_zero(self@, name@),
    {
        match last_entry_index(&self.entries, name) {
            Some(i) => {
                proof {
                    lemma_entries_map_last(self.entries@, i as int, name@);
                }
                self.entries[i].1
            },
            None => {
                proof {
                    lemma_entries_map_suffix(self.entries@, 0, name@);
                    assert(self.entries@.take(0) =~= Seq::<(String, u64)>::empty());
                }
                0
            },
        }
    }

    /// Adds `value` to a counter.
    pub fn add(&mut self, name: &str, value: u64)
        requires
            counter_or_zero(old(self)@, name@) + value <= u64::MAX,
        ensures
            final(self)@ == old(self)@.insert(name@, (counter_or_zero(old(self)@, name@) + value) as u64),
    {
        proof {
            use_type_invariant(&*self);
        }
        let mut entries: Vec<(String, u64)> = Vec::new();
        std::mem::swap(&mut entries, &mut self.entries);
        let ghost old_entries = entries@;
        assert(entries_map(old_entries) == old(self)@);
        let mut k: usize = 0;
        while k < entries.len() && text_before(entries[k].0.as_str(), name)
            invariant
                k <= entries@.len(),
                entries@ == old_entries,
                forall|j: int| 0 <= j < k ==> text_less(#[trigger] entries@[j].0@, name@),
            decreases entries@.len() - k,
        {
            k = k + 1;
        }
        if k < entries.len() && str_equal(entries[k].0.as_str(), name) {
            proof {
                assert forall|j: int| k < j < entries@.len() implies #[trigger] entries@[j].0@ != name@ by {
                    assert(text_less(entries@[k as int].0@, entries@[j].0@));
                    lemma_text_less_irreflexive(name@);
                }
                lemma_entries_map_last(entries@, k as int, name@);
            }
            let entry = (entries[k].0.clone(), entries[k].1 + value);
            proof {
                lemma_entries_map_update(entries@, k as int, entry);
            }
            entries.set(k, entry);
        } else {
            proof {
                if k < entries@.len() {
                    lemma_text_less_total(entries@[k as int].0@, name@);
                    assert(text_less(name@, entries@[k as int].0@));
                }
                assert forall|j: int| 0 <= j < entries@.len() implies #[trigger] entries@[j].0@ != name@ by {
                    if j < k {
                        assert(text_less(entries@[j].0@, name@));
                        lemma_text_less_irreflexive(name@);
                    } else if j > k {
                        assert(text_less(entries@[k as int].0@, entries@[j].0@));
                        lemma_text_less_transitive(name@, entries@[k as int].0@, entries@[j].0@);
                        lemma_text_less_irreflexive(name@);
                    }
                }
                lemma_entries_map_suffix(entries@, 0, name@);
                assert(entries@.take(0) =~= Seq::<(String, u64)>::empty());
            }
            let entry = (name.to_owned(), value);
            proof {
                lemma_entries_map_insert(entries@, k as int, entry);
            }
            let ghost before = entries@;
            entries.insert(k, entry);
            proof {
                assert(entries@ == before.insert(k as int, entry));
                assert forall|i: int, j: int| 0 <= i < j < entries@.len() implies text_less(
                    entries@[i].0@,
                    entries@[j].0@,
                ) by {
                    if j < k {
                        assert(entries@[i] == before[i] && entries@[j] == before[j]);
                    } else if j == k {
                        assert(entries@[i] == before[i]);
                    } else if i == k {
                        assert(entries@[j] == before[j - 1]);
                        if j - 1 > k {
                            assert(text_less(before[k as int].0@, before[j - 1].0@));
                            lemma_text_less_transitive(name@, before[k as int].0@, before[j - 1].0@);
                        }
                    } else if i < k {
                        assert(entries@[i] == before[i] && entries@[j] == before[j - 1]);
                    } else {
                        assert(entries@[i] == before[i - 1] && entries@[j] == before[j - 1]);
                    }
                }
            }
        }
        self.entries = entries;
    }

    /// The counters as name-value pairs, sorted by name, each name once.
    pub fn entries(&self) -> (r: &[(String, u64)])
        ensures
            entries_map(r@) == self@,
            forall|i: int, j: int| 0 <= i < j < r@.len() ==> text_less(r@[i].0@, r@[j].0@),
    {
        proof {
            use_type_invariant(self);
        }
        self.entries.as_slice()
    }
}

impl Clone for CounterTable {
    fn clone(&self) -> (r: Self)
        ensures
            r@ == self@,
    {
        proof {
            use_type_invariant(self);
        }
        let mut entries: Vec<(String, u64)> = Vec::new();
        let mut i: usize = 0;
        while i < self.entries.len()
            invariant
                i <= self.entries@.len(),
                entries@.len() == i,
                forall|j: int| 0 <= j < i ==> (#[trigger] entries@[j]).0@ == self.entries@[j].0@
                    && entries@[j].1 == self.entries@[j].1,
                forall|a: int, b: int|
                    0 <= a < b < self.entries@.len() ==> text_less(self.entries@[a].0@, self.entries@[b].0@),
            decreases self.entries@.len() - i,
        {
            entries.push((self.entries[i].0.clone(), self.entries[i].1));
            i = i + 1;
        }
        proof {
            lemma_entries_map_same_names(entries@, self.entries@);
        }
        CounterTable { entries }
    }
}

/// Entries with the same names and values make the same table.
proof fn lemma_entries_map_same_names(a: Seq<(String, u64)>, b: Seq<(String, u64)>)
    requires
        a.len() == b.len(),
        forall|j: int| 0 <= j < a.len() ==> (#[trigger] a[j]).0@ == b[j].0@ && a[j].1 == b[j].1,
    ensures
        entries_map(a) == entries_map(b),
    decreases a.len(),
{
    if a.len() > 0 {
        lemma_entries_map_same_names(a.drop_last(), b.drop_last());
    }
}

/// Whether a sequence is in non-decreasing order.
pub open spec fn is_sorted(s: Seq<u64>) -> bool {
    forall|i: int, j: int| 0 <= i <= j < s.len() ==> s[i] <= s[j]
}

/// Whether `t` holds the values of `s` in non-decreasing order.
pub open spec fn is_sorted_permutation(t: Seq<u64>, s: Seq<u64>) -> bool {
    is_sorted(t) && t.to_multiset() == s.to_multiset()
}

/// The values in non-decreasing order.
pub fn sorted_values(values: &Vec<u64>) -> (r: Vec<u64>)
    ensures
        is_sorted_permutation(r@, values@),
{
    broadcast use group_to_multiset_ensures;

    let mut sorted: Vec<u64> = Vec::new();
    let mut i: usize = 0;
    while i < values.len()
        invariant
            i <= values@.len(),
            is_sorted(sorted@),
            sorted@.to_multiset() == values@.take(i as int).to_multiset(),
        decreases values@.len() - i,
    {
        let x = values[i];
        let mut p: usize = 0;
        while p < sorted.len() && sorted[p] <= x
            invariant
                p <= sorted@.len(),
                forall|k: int| 0 <= k < p ==> sorted@[k] <= x,
            decreases sorted@.len() - p,
        {
            p = p + 1;
        }
        let ghost before = sorted@;
        sorted.insert(p, x);
        proof {
            assert(values@.take(i + 1) =~= values@.take(i as int).push(x));
            assert(sorted@ =~= before.insert(p as int, x));
            vstd::seq_lib::to_multiset_insert(before, p as int, x);
            vstd::seq_lib::to_multiset_build(values@.take(i as int), x);
            assert forall|a: int, b: int| 0 <= a <= b < sorted@.len() implies sorted@[a] <= sorted@[b] by {
                if p < before.len() {
                    assert(x < before[p as int]);
                }
            }
        }
        i = i + 1;
    }
    proof {
        assert(values@.take(values@.len() as int) =~= values@);
    }
    sorted
}

/// The value at the rounded-up `pct` percent position of sorted values; zero for none.
pub open spec fn percentile_of(values: Seq<u64>, pct: int) -> u64 {
    if values.len() == 0 {
        0
    } else {
        values[((values.len() - 1) * pct + 99) / 100]
    }
}

/// The rounded-up `pct` percent position of this many sorted values is computed without
/// overflow and falls inside them.
pub open spec fn percentile_in_range(len: nat, pct: int) -> bool {
    len > 0 ==> {
        &&& (len - 1) * pct <= usize::MAX
        &&& ((len - 1) * pct + 99) / 100 < len
    }
}

/// The percentiles of statistics (up to the 99th) of this many values are in range.
pub open spec fn percentiles_fit(len: nat) -> bool {
    len > 0 ==> (len - 1) * 99 <= usize::MAX
}

proof fn lemma_percentiles_fit(len: nat, pct: int)
    requires
        percentiles_fit(len),
        0 <= pct <= 99,
    ensures
        percentile_in_range(len, pct),
{
    if len > 0 {
        assert((len - 1) * pct <= (len - 1) * 99) by (nonlinear_arith)
            requires
                len >= 1,
                0 <= pct <= 99,
        ;
        assert(((len - 1) * pct + 99) / 100 < len) by (nonlinear_arith)
            requires
                len >= 1,
                0 <= pct <= 99,
        ;
    }
}

/// Over sorted values, a higher percent never gives a lower percentile, and a percent
/// whose position is in range makes every lower percent's position in range too.
pub proof fn law_percentile_monotone(values: Seq<u64>, low: int, high: int)
    requires
        is_sorted(values),
        0 <= low <= high,
        percentile_in_range(values.len(), high),
    ensures
        percentile_in_range(values.len(), low),
        percentile_of(values, low) <= percentile_of(values, high),
{
    if values.len() > 0 {
        let n = values.len();
        assert((n - 1) * low <= (n - 1) * high) by (nonlinear_arith)
            requires
                n >= 1,
                0 <= low <= high,
        ;
        assert(((n - 1) * low + 99) / 100 <= ((n - 1) * high + 99) / 100) by (nonlinear_arith)
            requires
                (n - 1) * low <= (n - 1) * high,
                n >= 1,
                low >= 0,
        ;
        assert(0 <= ((n - 1) * low + 99) / 100) by (nonlinear_arith)
            requires
                n >= 1,
                low >= 0,
        ;
    }
}

pub fn percentile(values: &[u64], pct: usize) -> (r: u64)
    requires
        percentile_in_range(values@.len(), pct as int),
    ensures
        r == percentile_of(values@, pct as int),
{
    if values.len() == 0 {
        return 0;
    }
    let scaled = (values.len() - 1) * pct;
    let index = if scaled % 100 == 0 {
        scaled / 100
    } else {
        scaled / 100 + 1
    };
    assert(index == (scaled + 99) / 100) by (nonlinear_arith)
        requires
            index == if scaled % 100 == 0 { scaled / 100 } else { (scaled / 100 + 1) as usize },
            scaled >= 0,
    ;
    values[index]
}

/// Sum of the values.
pub open spec fn total_of(values: Seq<u64>) -> int
    decreases values.len(),
{
    if values.len() == 0 {
        0
    } else {
        total_of(values.drop_last()) + values.last()
    }
}

/// Timing and counters of one stage.
#[derive(Debug, Clone, Default, PartialEq, Eq)]
pub struct StageStats {
    pub calls: u64,
    pub total_nanos: u64,
    pub self_nanos: u64,
    pub children_nanos: u64,
    pub min_nanos: u64,
    pub p50_nanos: u64,
    pub p90_nanos: u64,
    pub p99_nanos: u64,
    pub max_nanos: u64,
    pub bytes: u64,
    pub draw_calls: u64,
    pub buffer_writes: u64,
    pub cache_hits: u64,
    pub cache_misses: u64,
    pub resource_rebuilds: u64,
    pub counters: CounterTable,
}

/// The statistics of a stage whose calls took the sorted times `sorted`, whose child
/// stages took `children` in all, and whose counters are `counters`.
pub open spec fn stats_fields_match(
    r: StageStats,
    sorted: Seq<u64>,
    children: u64,
    counters: Map<Seq<char>, u64>,
) -> bool {
    &&& r.calls == sorted.len()
    &&& r.total_nanos == total_of(sorted)
    &&& r.self_nanos == if total_of(sorted) < children { 0 } else { (total_of(sorted) - children) as u64 }
    &&& r.children_nanos == children
    &&& r.min_nanos == if sorted.len() == 0 { 0 } else { sorted[0] }
    &&& r.p50_nanos == percentile_of(sorted, 50)
    &&& r.p90_nanos == percentile_of(sorted, 90)
    &&& r.p99_nanos == percentile_of(sorted, 99)
    &&& r.max_nanos == if sorted.len() == 0 { 0 } else { sorted.last() }
    &&& r.bytes == counter_or_zero(counters, "bytes"@)
    &&& r.draw_calls == counter_or_zero(counters, "draw_calls"@)
    &&& r.buffer_writes == counter_or_zero(counters, "buffer_writes"@)
    &&& r.cache_hits == counter_or_zero(counters, "cache_hits"@)
    &&& r.cache_misses == counter_or_zero(counters, "cache_misses"@)
    &&& r.resource_rebuilds == counter_or_zero(counters, "resource_rebuilds"@)
    &&& r.counters@ == counters
}

fn sum_values(values: &Vec<u64>) -> (r: u64)
    requires
        total_of(values@) <= u64::MAX,
    ensures
        r == total_of(values@),
{
    let mut total: u64 = 0;
    let mut i: usize = 0;
    while i < values.len()
        invariant
            i <= values@.len(),
            total_of(values@) <= u64::MAX,
            total == total_of(values@.take(i as int)),
        decreases values@.len() - i,
    {
        proof {
            assert(values@.take(i + 1).drop_last() =~= values@.take(i as int));
            lemma_total_prefix(values@, i + 1);
        }
        total = total + values[i];
        i = i + 1;
    }
    proof {
        assert(values@.take(values@.len() as int) =~= values@);
    }
    total
}

/// A prefix sums to no more than the whole.
proof fn lemma_total_prefix(values: Seq<u64>, n: int)
    requires
        0 <= n <= values.len(),
    ensures
        total_of(values.take(n)) <= total_of(values),
    decreases values.len(),
{
    if n < values.len() {
        assert(values.drop_last().take(n) =~= values.take(n));
        lemma_total_prefix(values.drop_last(), n);
    } else {
        assert(values.take(n) =~= values);
    }
}

/// Reordering values keeps their sum.
proof fn lemma_total_permutation(a: Seq<u64>, b: Seq<u64>)
    requires
        a.to_multiset() == b.to_multiset(),
    ensures
        total_of(a) == total_of(b),
    decreases a.len(),
{
    broadcast use group_to_multiset_ensures;

    if a.len() == 0 {
        assert(b.to_multiset().len() == 0);
        assert(b.len() == 0);
    } else {
        let x = a.last();
        assert(a.to_multiset().count(x) > 0) by {
            assert(a.contains(x)) by {
                assert(a[a.len() - 1] == x);
            }
        }
        assert(b.contains(x));
        let k = choose|k: int| 0 <= k < b.len() && b[k] == x;
        let b2 = b.remove(k);
        assert(a.drop_last().to_multiset() =~= a.to_multiset().remove(x)) by {
            assert(a =~= a.drop_last().push(x));
        }
        assert(b2.to_multiset() == b.to_multiset().remove(x));
        lemma_total_permutation(a.drop_last(), b2);
        lemma_total_remove(b, k);
    }
}

/// Removing an element takes it off the sum.
proof fn lemma_total_remove(s: Seq<u64>, k: int)
    requires
        0 <= k < s.len(),
    ensures
        total_of(s) == total_of(s.remove(k)) + s[k],
    decreases s.len(),
{
    if k < s.len() - 1 {
        assert(s.remove(k).drop_last() =~= s.drop_last().remove(k));
        lemma_total_remove(s.drop_last(), k);
    } else {
        assert(s.remove(k) =~= s.drop_last());
    }
}

/// The statistics of a stage from its call times, the time of its child stages and its
/// counters.
pub fn finish_stage_stats(elapsed: Vec<u64>, children_nanos: u64, counters: CounterTable) -> (r: StageStats)
    requires
        total_of(elapsed@) <= u64::MAX,
        percentiles_fit(elapsed@.len()),
    ensures
        exists|sorted: Seq<u64>| #[trigger]
            is_sorted_permutation(sorted, elapsed@) && stats_fields_match(r, sorted, children_nanos, counters@),
{
    let total_nanos = sum_values(&elapsed);
    let sorted = sorted_values(&elapsed);
    proof {
        lemma_total_permutation(sorted@, elapsed@);
        assert(sorted@.to_multiset().len() == elapsed@.to_multiset().len());
        broadcast use group_to_multiset_ensures;
    }
    let calls = sorted.len() as u64;
    let min_nanos = if sorted.len() == 0 { 0 } else { sorted[0] };
    let max_nanos = if sorted.len() == 0 { 0 } else { sorted[sorted.len() - 1] };
    proof {
        lemma_percentiles_fit(sorted@.len(), 50);
        lemma_percentiles_fit(sorted@.len(), 90);
        lemma_percentiles_fit(sorted@.len(), 99);
    }
    let p50_nanos = percentile(sorted.as_slice(), 50);
    let p90_nanos = percentile(sorted.as_slice(), 90);
    let p99_nanos = percentile(sorted.as_slice(), 99);
    let bytes = counters.get("bytes");
    let draw_calls = counters.get("draw_calls");
    let buffer_writes = counters.get("buffer_writes");
    let cache_hits = counters.get("cache_hits");
    let cache_misses = counters.get("cache_misses");
    let resource_rebuilds = counters.get("resource_rebuilds");
    let r = StageStats {
        calls,
        total_nanos,
        self_nanos: total_nanos.saturating_sub(children_nanos),
        children_nanos,
        min_nanos,
        p50_nanos,
        p90_nanos,
        p99_nanos,
        max_nanos,
        bytes,
        draw_calls,
        buffer_writes,
        cache_hits,
        cache_misses,
        resource_rebuilds,
        counters,
    };
    assert(is_sorted_permutation(sorted@, elapsed@) && stats_fields_match(r, sorted@, children_nanos, r.counters@));
    r
}

/// A finished span: its stage, how long it took, and the stage it ran inside of.
#[derive(Debug, Clone, Copy, PartialEq, Eq, Structural)]
pub struct SpanSample {
    pub stage: Stage,
    pub elapsed_nanos: u64,
    pub parent_stage: Option<Stage>,
}

/// A counter recorded under a stage.
#[derive(Debug, Clone, PartialEq, Eq)]
pub struct CounterSample {
    pub stage: Stage,
    pub name: String,
    pub value: u64,
}

/// Call times of a stage, in the order its spans were recorded.
pub open spec fn elapsed_of(spans: Seq<SpanSample>, stage: Stage) -> Seq<u64>
    decreases spans.len(),
{
    if spans.len() == 0 {
        Seq::empty()
    } else if spans.last().stage == stage {
        elapsed_of(spans.drop_last(), stage).push(spans.last().elapsed_nanos)
    } else {
        elapsed_of(spans.drop_last(), stage)
    }
}

/// Time spent in spans whose parent is the stage, added up to at most `u64::MAX`.
pub open spec fn children_of(spans: Seq<SpanSample>, stage: Stage) -> u64
    decreases spans.len(),
{
    if spans.len() == 0 {
        0
    } else {
        let before = children_of(spans.drop_last(), stage);
        if spans.last().parent_stage == Some(stage) {
            if before + spans.last().elapsed_nanos > u64::MAX {
                u64::MAX
            } else {
                (before + spans.last().elapsed_nanos) as u64
            }
        } else {
            before
        }
    }
}

/// Counters of a stage, summed per name.
pub open spec fn counters_of(counters: Seq<CounterSample>, stage: Stage) -> Map<Seq<char>, u64>
    decreases counters.len(),
{
    if counters.len() == 0 {
        Map::empty()
    } else {
        let before = counters_of(counters.drop_last(), stage);
        let c = counters.last();
        if c.stage == stage {
            before.insert(c.name@, (counter_or_zero(before, c.name@) + c.value) as u64)
        } else {
            before
        }
    }
}

/// Whether a stage has a span, is the parent of a span, or has a counter.
pub open spec fn stage_seen(spans: Seq<SpanSample>, counters: Seq<CounterSample>, stage: Stage) -> bool {
    ||| exists|i: int| 0 <= i < spans.len() && #[trigger] spans[i].stage == stage
    ||| exists|i: int| 0 <= i < spans.len() && #[trigger] spans[i].parent_stage == Some(stage)
    ||| exists|i: int| 0 <= i < counters.len() && #[trigger] counters[i].stage == stage
}

/// No per-name counter sum of a stage exceeds `u64::MAX`.
#[verifier::opaque]
pub open spec fn counter_sums_fit(counters: Seq<CounterSample>) -> bool {
    forall|j: int|
        0 <= j < counters.len() ==> counter_or_zero(
            counters_of(counters.take(j), counters[j].stage),
            #[trigger] counters[j].name@,
        ) + counters[j].value <= u64::MAX
}

/// No stage's call times add up to more than `u64::MAX`.
pub open spec fn stage_totals_fit(spans: Seq<SpanSample>) -> bool {
    forall|stage: Stage| total_of(#[trigger] elapsed_of(spans, stage)) <= u64::MAX
}

/// Whether `stats` are the statistics of `stage` over these spans and counters.
pub open spec fn stage_stats_of(
    stats: StageStats,
    spans: Seq<SpanSample>,
    counters: Seq<CounterSample>,
    stage: Stage,
) -> bool {
    exists|sorted: Seq<u64>| #[trigger]
        is_sorted_permutation(sorted, elapsed_of(spans, stage)) && stats_fields_match(
            stats,
            sorted,
            children_of(spans, stage),
            counters_of(counters, stage),
        )
}

proof fn lemma_elapsed_len(spans: Seq<SpanSample>, stage: Stage)
    ensures
        elapsed_of(spans, stage).len() <= spans.len(),
    decreases spans.len(),
{
    if spans.len() > 0 {
        lemma_elapsed_len(spans.drop_last(), stage);
    }
}

/// Call times, child time and whether any span mentions the stage.
fn gather_spans(spans: &[SpanSample], stage: Stage) -> (r: (Vec<u64>, u64, bool))
    ensures
        r.0@ == elapsed_of(spans@, stage),
        r.1 == children_of(spans@, stage),
        r.2 == ((exists|i: int| 0 <= i < spans@.len() && #[trigger] spans@[i].stage == stage) || (exists|
            i: int,
        | 0 <= i < spans@.len() && #[trigger] spans@[i].parent_stage == Some(stage))),
{
    let mut elapsed: Vec<u64> = Vec::new();
    let mut children: u64 = 0;
    let mut own = false;
    let mut child = false;
    let mut i: usize = 0;
    while i < spans.len()
        invariant
            i <= spans@.len(),
            elapsed@ == elapsed_of(spans@.take(i as int), stage),
            children == children_of(spans@.take(i as int), stage),
            own == (exists|k: int| 0 <= k < i && #[trigger] spans@[k].stage == stage),
            child == (exists|k: int| 0 <= k < i && #[trigger] spans@[k].parent_stage == Some(stage)),
        decreases spans@.len() - i,
    {
        let span = spans[i];
        proof {
            assert(spans@.take(i + 1).drop_last() =~= spans@.take(i as int));
        }
        if span.stage == stage {
            elapsed.push(span.elapsed_nanos);
            own = true;
        }
        if span.parent_stage == Some(stage) {
            children = children.saturating_add(span.elapsed_nanos);
            child = true;
        }
        i = i + 1;
    }
    proof {
        assert(spans@.take(spans@.len() as int) =~= spans@);
    }
    (elapsed, children, own || child)
}

/// The counters of a stage, and whether any counter was recorded under it.
fn gather_counters(counters: &[CounterSample], stage: Stage) -> (r: (CounterTable, bool))
    requires
        counter_sums_fit(counters@),
    ensures
        r.0@ == counters_of(counters@, stage),
        r.1 == (exists|i: int| 0 <= i < counters@.len() && #[trigger] counters@[i].stage == stage),
{
    let mut table = CounterTable::new();
    let mut seen = false;
    let mut j: usize = 0;
    while j < counters.len()
        invariant
            j <= counters@.len(),
            counter_sums_fit(counters@),
            table@ == counters_of(counters@.take(j as int), stage),
            seen == (exists|k: int| 0 <= k < j && #[trigger] counters@[k].stage == stage),
        decreases counters@.len() - j,
    {
        let c = &counters[j];
        proof {
            assert(counters@.take(j + 1).drop_last() =~= counters@.take(j as int));
        }
        if c.stage == stage {
            proof {
                lemma_counter_fits(counters@, j as int);
            }
            table.add(c.name.as_str(), c.value);
            seen = true;
        }
        j = j + 1;
    }
    proof {
        assert(counters@.take(counters@.len() as int) =~= counters@);
    }
    (table, seen)
}

proof fn lemma_counter_fits(counters: Seq<CounterSample>, j: int)
    requires
        counter_sums_fit(counters),
        0 <= j < counters.len(),
    ensures
        counter_or_zero(counters_of(counters.take(j), counters[j].stage), counters[j].name@)
            + counters[j].value <= u64::MAX,
{
    reveal(counter_sums_fit);
}

/// Gathers what the spans and counters say of one stage.
fn gather_stage(spans: &[SpanSample], counters: &[CounterSample], stage: Stage) -> (r: (
    Vec<u64>,
    u64,
    CounterTable,
    bool,
))
    requires
        counter_sums_fit(counters@),
    ensures
        r.0@ == elapsed_of(spans@, stage),
        r.1 == children_of(spans@, stage),
        r.2@ == counters_of(counters@, stage),
        r.3 == stage_seen(spans@, counters@, stage),
{
    let (elapsed, children, in_spans) = gather_spans(spans, stage);
    let (table, in_counters) = gather_counters(counters, stage);
    (elapsed, children, table, in_spans || in_counters)
}

/// Statistics of every stage that the spans and counters mention, in stage order.
pub fn stage_stats_from_samples(spans: &[SpanSample], counters: &[CounterSample]) -> (r: Vec<(Stage, StageStats)>)
    requires
        counter_sums_fit(counters@),
        stage_totals_fit(spans@),
        forall|stage: Stage| percentiles_fit(#[trigger] elapsed_of(spans@, stage).len()),
    ensures
        forall|k: int| #![trigger r@[k]]
            0 <= k < r@.len() ==> stage_seen(spans@, counters@, r@[k].0) && stage_stats_of(
                r@[k].1,
                spans@,
                counters@,
                r@[k].0,
            ),
        forall|k: int, l: int| 0 <= k < l < r@.len() ==> stage_rank(r@[k].0) < stage_rank(r@[l].0),
        forall|stage: Stage| #[trigger]
            stage_seen(spans@, counters@, stage) ==> exists|k: int| 0 <= k < r@.len() && r@[k].0 == stage,
{
    let mut result: Vec<(Stage, StageStats)> = Vec::new();
    let mut rank: usize = 0;
    while rank < STAGE_COUNT
        invariant
            rank <= STAGE_COUNT,
            counter_sums_fit(counters@),
            stage_totals_fit(spans@),
            forall|stage: Stage| percentiles_fit(#[trigger] elapsed_of(spans@, stage).len()),
            forall|k: int| #![trigger result@[k]]
                0 <= k < result@.len() ==> stage_seen(spans@, counters@, result@[k].0) && stage_stats_of(
                    result@[k].1,
                    spans@,
                    counters@,
                    result@[k].0,
                ) && stage_rank(result@[k].0) < rank,
            forall|k: int, l: int| 0 <= k < l < result@.len() ==> stage_rank(result@[k].0) < stage_rank(result@[l].0),
            forall|stage: Stage| #[trigger]
                stage_seen(spans@, counters@, stage) && stage_rank(stage) < rank ==> exists|k: int|
                    0 <= k < result@.len() && result@[k].0 == stage,
        decreases STAGE_COUNT - rank,
    {
        let stage = stage_at_rank(rank);
        let (elapsed, children, table, seen) = gather_stage(spans, counters, stage);
        if seen {
            proof {
                assert(total_of(elapsed_of(spans@, stage)) <= u64::MAX);
                assert(percentiles_fit(elapsed_of(spans@, stage).len()));
            }
            let stats = finish_stage_stats(elapsed, children, table);
            let ghost before = result@;
            result.push((stage, stats));
            proof {
                assert(result@[before.len() as int] == (stage, stats));
                assert forall|s: Stage| #[trigger]
                    stage_seen(spans@, counters@, s) && stage_rank(s) < rank + 1 implies exists|k: int|
                        0 <= k < result@.len() && result@[k].0 == s by {
                    lemma_stage_rank(s);
                    if stage_rank(s) == rank {
                        assert(result@[before.len() as int].0 == s);
                    } else {
                        let k = choose|k: int| 0 <= k < before.len() && before[k].0 == s;
                        assert(result@[k].0 == s);
                    }
                }
            }
        } else {
            proof {
                assert forall|s: Stage| #[trigger]
                    stage_seen(spans@, counters@, s) && stage_rank(s) < rank + 1 implies exists|k: int|
                        0 <= k < result@.len() && result@[k].0 == s by {
                    lemma_stage_rank(s);
                }
            }
        }
        rank = rank + 1;
    }
    proof {
        assert forall|s: Stage| #[trigger] stage_seen(spans@, counters@, s) implies exists|k: int|
            0 <= k < result@.len() && result@[k].0 == s by {
            lemma_stage_rank(s);
        }
    }
    result
}

/// Whether the counters of one stage sum without overflow, per name, in recording
/// order.
fn stage_counter_sums_fit(counters: &[CounterSample], stage: Stage) -> (r: bool)
    ensures
        r == forall|j: int|
            0 <= j < counters@.len() && counters@[j].stage == stage ==> counter_or_zero(
                counters_of(counters@.take(j), stage),
                #[trigger] counters@[j].name@,
            ) + counters@[j].value <= u64::MAX,
{
    let mut table = CounterTable::new();
    let mut j: usize = 0;
    while j < counters.len()
        invariant
            j <= counters@.len(),
            table@ == counters_of(counters@.take(j as int), stage),
            forall|k: int|
                0 <= k < j && counters@[k].stage == stage ==> counter_or_zero(
                    counters_of(counters@.take(k), stage),
                    #[trigger] counters@[k].name@,
                ) + counters@[k].value <= u64::MAX,
        decreases counters@.len() - j,
    {
        let c = &counters[j];
        proof {
            assert(counters@.take(j + 1).drop_last() =~= counters@.take(j as int));
        }
        if c.stage == stage {
            let current = table.get(c.name.as_str());
            if c.value > u64::MAX - current {
                return false;
            }
            table.add(c.name.as_str(), c.value);
        }
        j = j + 1;
    }
    true
}

/// Whether the call times of one stage sum without overflow.
/// Number of spans of the stage.
fn stage_span_count(spans: &[SpanSample], stage: Stage) -> (r: usize)
    ensures
        r == elapsed_of(spans@, stage).len(),
{
    let mut count: usize = 0;
    let mut i: usize = 0;
    while i < spans.len()
        invariant
            i <= spans@.len(),
            count == elapsed_of(spans@.take(i as int), stage).len(),
        decreases spans@.len() - i,
    {
        proof {
            assert(spans@.take(i + 1).drop_last() =~= spans@.take(i as int));
            lemma_elapsed_len(spans@.take(i as int), stage);
        }
        if spans[i].stage == stage {
            count = count + 1;
        }
        i = i + 1;
    }
    proof {
        assert(spans@.take(spans@.len() as int) =~= spans@);
    }
    count
}

fn stage_total_fits(spans: &[SpanSample], stage: Stage) -> (r: bool)
    ensures
        r == (total_of(elapsed_of(spans@, stage)) <= u64::MAX),
{
    let mut total: u64 = 0;
    let mut i: usize = 0;
    while i < spans.len()
        invariant
            i <= spans@.len(),
            total == total_of(elapsed_of(spans@.take(i as int), stage)),
        decreases spans@.len() - i,
    {
        proof {
            assert(spans@.take(i + 1).drop_last() =~= spans@.take(i as int));
            let before = elapsed_of(spans@.take(i as int), stage);
            assert(before.push(spans@[i as int].elapsed_nanos).drop_last() =~= before);
        }
        if spans[i].stage == stage {
            if spans[i].elapsed_nanos > u64::MAX - total {
                proof {
                    lemma_elapsed_total_grows(spans@, (i + 1) as nat, spans@.len(), stage);
                    assert(spans@.take(spans@.len() as int) =~= spans@);
                }
                return false;
            }
            total = total + spans[i].elapsed_nanos;
        }
        i = i + 1;
    }
    proof {
        assert(spans@.take(spans@.len() as int) =~= spans@);
    }
    true
}

proof fn lemma_elapsed_total_grows(spans: Seq<SpanSample>, a: nat, b: nat, stage: Stage)
    requires
        a <= b <= spans.len(),
    ensures
        total_of(elapsed_of(spans.take(a as int), stage)) <= total_of(elapsed_of(spans.take(b as int), stage)),
    decreases b,
{
    if a < b {
        lemma_elapsed_total_grows(spans, a, (b - 1) as nat, stage);
        assert(spans.take(b as int).drop_last() =~= spans.take(b - 1));
        let before = elapsed_of(spans.take(b - 1), stage);
        if spans.take(b as int).last().stage == stage {
            assert(before.push(spans.take(b as int).last().elapsed_nanos).drop_last() =~= before);
        }
    }
}

/// Whether spans and counters can be summarized: call times and counters sum without
/// overflow, and each stage's percentile positions are computed without overflow.
pub fn samples_fit(spans: &[SpanSample], counters: &[CounterSample]) -> (r: bool)
    ensures
        r == (counter_sums_fit(counters@) && stage_totals_fit(spans@) && forall|stage: Stage|
            percentiles_fit(#[trigger] elapsed_of(spans@, stage).len())),
{
    let mut rank: usize = 0;
    while rank < STAGE_COUNT
        invariant
            rank <= STAGE_COUNT,
            forall|s: Stage| stage_rank(s) < rank ==> total_of(#[trigger] elapsed_of(spans@, s)) <= u64::MAX,
            forall|s: Stage| stage_rank(s) < rank ==> percentiles_fit(#[trigger] elapsed_of(spans@, s).len()),
            forall|j: int|
                0 <= j < counters@.len() && stage_rank(counters@[j].stage) < rank ==> counter_or_zero(
                    counters_of(counters@.take(j), counters@[j].stage),
                    #[trigger] counters@[j].name@,
                ) + counters@[j].value <= u64::MAX,
        decreases STAGE_COUNT - rank,
    {
        let stage = stage_at_rank(rank);
        if !stage_total_fits(spans, stage) {
            proof {
                assert(!stage_totals_fit(spans@));
            }
            return false;
        }
        let count = stage_span_count(spans, stage);
        if count > 0 && (count - 1).checked_mul(99).is_none() {
            proof {
                assert(!percentiles_fit(elapsed_of(spans@, stage).len()));
            }
            return false;
        }
        if !stage_counter_sums_fit(counters, stage) {
            proof {
                reveal(counter_sums_fit);
                let j = choose|j: int|
                    0 <= j < counters@.len() && counters@[j].stage == stage && !(counter_or_zero(
                        counters_of(counters@.take(j), stage),
                        #[trigger] counters@[j].name@,
                    ) + counters@[j].value <= u64::MAX);
                assert(!counter_sums_fit(counters@));
            }
            return false;
        }
        proof {
            assert forall|s: Stage| stage_rank(s) < rank + 1 implies total_of(#[trigger] elapsed_of(spans@, s)) <= u64::MAX by {
                lemma_stage_rank(s);
            }
            assert forall|s: Stage| stage_rank(s) < rank + 1 implies percentiles_fit(#[trigger] elapsed_of(spans@, s).len()) by {
                lemma_stage_rank(s);
            }
        }
        rank = rank + 1;
    }
    proof {
        reveal(counter_sums_fit);
        assert forall|j: int| 0 <= j < counters@.len() implies counter_or_zero(
            counters_of(counters@.take(j), counters@[j].stage),
            #[trigger] counters@[j].name@,
        ) + counters@[j].value <= u64::MAX by {
            lemma_stage_rank(counters@[j].stage);
        }
        assert forall|s: Stage| total_of(#[trigger] elapsed_of(spans@, s)) <= u64::MAX by {
            lemma_stage_rank(s);
        }
    }
    true
}

} // verus!
