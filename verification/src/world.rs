use crate::commands::{lemma_commands_end_same_ids, lemma_draw_ids_same_rows, render_commands};
use crate::layout::{
    has_geometry, lemma_render_order_rows, lemma_resident_prefix, mask_keys, mask_refs,
    render_order_rows, resident_rows, row_facts, rows_in_render_order, should_draw,
    vertex_range_of, index_range_of, vertex_total, index_total, RowFacts,
};
use crate::model::{
    clipping_view, clone_clipping, clone_offscreens, same_clipping, ClippingInfo, DrawableView,
    MaskRef, ModelSnapshot, SnapshotView,
};
use crate::plan::{
    commands_end, draws_of, fresh_layout, masks_view, model_of, plan_from, plannable, planned,
    row_render_orders, MaskPass, ModelCtxView, ModelRenderCtx, PlanLayout, RenderPlan,
    RenderPlanView,
};
use crate::planner::{
    build_drawable_table, build_mask_group_table, build_model_ctx, draw_commands_for_visible_rows,
    drawable_should_draw, layout_fits, lemma_fresh_layout_fits, mask_draw_commands_from_table,
    pass_keys, resident_drawable_indices, sorted_drawable_rows, DrawableTable,
    MaskGroupTable,
};
use crate::render::lemma_masks_view;
use std::ops::Range;
use vstd::prelude::*;

verus! {

/// Mathematical model of what a render world keeps of one model between plans.
pub struct CacheView {
    pub model: ModelCtxView,
    pub layout: PlanLayout,
    pub facts: Seq<RowFacts>,
    /// The draw order under which the mask groups were numbered.
    pub mask_rows: Seq<usize>,
}

/// Ranges that follow each other without gaps, starting at 0.
pub open spec fn ranges_contiguous(rs: Seq<Range<u32>>) -> bool {
    &&& rs.len() > 0 ==> rs[0].start == 0
    &&& forall|r: int| 0 <= r < rs.len() ==> (#[trigger] rs[r]).start <= rs[r].end
    &&& forall|r: int| 0 < r < rs.len() ==> (#[trigger] rs[r]).start == rs[r - 1].end
}

/// A cache is consistent: its model context, packed ranges, draw order and mask
/// groups agree with each other and with the row facts it recorded.
pub open spec fn cache_wf(c: CacheView) -> bool {
    let l = c.layout;
    let m = l.source_indices.len();
    &&& l.vertex_ranges.len() == m
    &&& l.index_ranges.len() == m
    &&& l.render_orders.len() == m
    &&& l.mask_refs.len() == m
    &&& c.facts.len() == m
    &&& c.model.drawables.len() == m
    &&& rows_in_render_order(l.ordered_rows, l.render_orders)
    &&& ranges_contiguous(l.vertex_ranges)
    &&& ranges_contiguous(l.index_ranges)
    &&& c.model.vertex_count == (if m == 0 {
        0
    } else {
        l.vertex_ranges.last().end
    })
    &&& c.model.index_count == (if m == 0 {
        0
    } else {
        l.index_ranges.last().end
    })
    &&& forall|r: int|
        0 <= r < m ==> {
            &&& (#[trigger] c.model.drawables[r]).vertex_range == l.vertex_ranges[r]
            &&& c.model.drawables[r].index_range == l.index_ranges[r]
            &&& c.model.drawables[r].drawable_id == c.facts[r].id
        }
    &&& l.masks == mask_keys(c.facts, c.mask_rows)
    &&& l.mask_refs == mask_refs(c.facts, c.mask_rows)
}

/// Row `r` of the cache still describes the snapshot drawable behind it.
pub open spec fn row_matches(c: CacheView, ds: Seq<DrawableView>, r: int) -> bool {
    let src = c.layout.source_indices[r];
    let d = ds[src as int];
    &&& src < ds.len()
    &&& has_geometry(d)
    &&& d.id == c.model.drawables[r].drawable_id
    &&& d.texture_index == c.model.drawables[r].texture_index
    &&& d.vertices.len() == c.layout.vertex_ranges[r].end - c.layout.vertex_ranges[r].start
    &&& d.indices.len() == c.layout.index_ranges[r].end - c.layout.index_ranges[r].start
    &&& d.clipping == c.facts[r].clipping
    &&& should_draw(d) == c.facts[r].drawn
}

/// The cache can be reused for the snapshot: the same drawables are resident, with
/// the same ids, textures, geometry sizes, clips and drawn state.
pub open spec fn cache_matches(c: CacheView, s: SnapshotView) -> bool {
    &&& resident_rows(s.drawables).len() == c.layout.source_indices.len()
    &&& forall|r: int| 0 <= r < c.layout.source_indices.len() ==> #[trigger] row_agrees(c, s, r)
}

/// Row `r` of the cache is the snapshot's resident row `r` and still describes it.
pub open spec fn row_agrees(c: CacheView, s: SnapshotView, r: int) -> bool {
    &&& resident_rows(s.drawables)[r] == c.layout.source_indices[r]
    &&& row_matches(c, s.drawables, r)
}

/// The cache that planning the snapshot from scratch records.
pub open spec fn fresh_cache(s: SnapshotView) -> CacheView {
    let l = fresh_layout(s);
    CacheView {
        model: model_of(s.drawables, l),
        layout: l,
        facts: row_facts(s.drawables, l.source_indices),
        mask_rows: l.ordered_rows,
    }
}

/// The cache with the snapshot's render orders, re-sorted if they changed.
pub open spec fn refreshed(c: CacheView, s: SnapshotView) -> CacheView {
    let orders = row_render_orders(s.drawables, c.layout.source_indices);
    if orders == c.layout.render_orders {
        c
    } else {
        CacheView {
            layout: PlanLayout {
                render_orders: orders,
                ordered_rows: render_order_rows(orders),
                ..c.layout
            },
            ..c
        }
    }
}

/// The cache a world holds for the snapshot's model after planning it.
pub open spec fn next_cache(old: Option<CacheView>, s: SnapshotView) -> CacheView {
    match old {
        Some(c) => if cache_matches(c, s) {
            refreshed(c, s)
        } else {
            fresh_cache(s)
        },
        None => fresh_cache(s),
    }
}

/// The cache with its mask groups numbered afresh under its own draw order.
pub open spec fn with_masks_renumbered(c: CacheView) -> CacheView {
    CacheView {
        layout: PlanLayout {
            masks: mask_keys(c.facts, c.layout.ordered_rows),
            mask_refs: mask_refs(c.facts, c.layout.ordered_rows),
            ..c.layout
        },
        mask_rows: c.layout.ordered_rows,
        ..c
    }
}

/// The cache with the snapshot's render orders; if any changed, re-sorted and with its
/// mask groups numbered afresh under the new draw order.
pub open spec fn renumbered(c: CacheView, s: SnapshotView) -> CacheView {
    if row_render_orders(s.drawables, c.layout.source_indices) == c.layout.render_orders {
        c
    } else {
        with_masks_renumbered(refreshed(c, s))
    }
}

/// The cache a world holds for the snapshot's model after planning it with mask
/// groups renumbered on a change of draw order.
pub open spec fn next_cache_renumbered(old: Option<CacheView>, s: SnapshotView) -> CacheView {
    match old {
        Some(c) => if cache_matches(c, s) {
            renumbered(c, s)
        } else {
            fresh_cache(s)
        },
        None => fresh_cache(s),
    }
}

/// The plan a world with these caches builds for the snapshot when it renumbers mask
/// groups on a change of draw order.
pub open spec fn world_plan_renumbered(m: Map<Seq<char>, CacheView>, s: SnapshotView) -> RenderPlanView {
    let c = next_cache_renumbered(cache_lookup(m, s.model_key), s);
    plan_from(s, c.layout, c.model)
}

/// Every cache of the world numbers its mask groups under its own draw order.
pub open spec fn masks_current(m: Map<Seq<char>, CacheView>) -> bool {
    forall|k: Seq<char>| m.dom().contains(k) ==> (#[trigger] m[k]).mask_rows == m[k].layout.ordered_rows
}

pub open spec fn cache_lookup(m: Map<Seq<char>, CacheView>, key: Seq<char>) -> Option<CacheView> {
    if m.dom().contains(key) {
        Some(m[key])
    } else {
        None
    }
}

/// The plan a world with these caches builds for the snapshot.
pub open spec fn world_plan(m: Map<Seq<char>, CacheView>, s: SnapshotView) -> RenderPlanView {
    let c = next_cache(cache_lookup(m, s.model_key), s);
    plan_from(s, c.layout, c.model)
}

/// Every cache of the world is consistent.
pub open spec fn world_wf(m: Map<Seq<char>, CacheView>) -> bool {
    forall|k: Seq<char>| m.dom().contains(k) ==> cache_wf(#[trigger] m[k])
}

/// What a render world keeps of one model.
pub struct RenderWorldCache {
    pub model_key: String,
    pub model: ModelRenderCtx,
    pub table: DrawableTable,
    pub ordered_rows: Vec<usize>,
    pub mask_table: MaskGroupTable,
    pub clipping_by_row: Vec<Option<ClippingInfo>>,
    pub draw_enabled_by_row: Vec<bool>,
    pub mask_rows: Ghost<Seq<usize>>,
}

impl View for RenderWorldCache {
    type V = CacheView;

    open spec fn view(&self) -> CacheView {
        CacheView {
            model: self.model@,
            layout: PlanLayout {
                source_indices: self.table.source_indices@,
                vertex_ranges: self.table.vertex_ranges@,
                index_ranges: self.table.index_ranges@,
                render_orders: self.table.render_orders@,
                ordered_rows: self.ordered_rows@,
                masks: pass_keys(self.mask_table.masks@),
                mask_refs: self.mask_table.mask_refs_by_row@,
            },
            facts: Seq::new(
                self.table.source_indices@.len(),
                |r: int|
                    RowFacts {
                        id: self.model.drawables@[r].drawable_id@,
                        drawn: self.draw_enabled_by_row@[r],
                        clipping: clipping_view(self.clipping_by_row@[r]),
                    },
            ),
            mask_rows: self.mask_rows@,
        }
    }
}

impl RenderWorldCache {
    pub open spec fn wf(&self) -> bool {
        &&& cache_wf(self@)
        &&& self.clipping_by_row@.len() == self.table.source_indices@.len()
        &&& self.draw_enabled_by_row@.len() == self.table.source_indices@.len()
        &&& forall|i: int|
            0 <= i < self.mask_table.masks@.len() ==> (#[trigger] self.mask_table.masks@[i]).id
                == MaskRef(i as usize)
    }
}

/// The caches as a map from model key to cache.
pub open spec fn caches_map(caches: Seq<RenderWorldCache>) -> Map<Seq<char>, CacheView> {
    Map::new(
        |k: Seq<char>| exists|i: int| 0 <= i < caches.len() && caches[i].model_key@ == k,
        |k: Seq<char>|
            caches[choose|i: int| 0 <= i < caches.len() && caches[i].model_key@ == k]@,
    )
}

pub open spec fn keys_distinct(caches: Seq<RenderWorldCache>) -> bool {
    forall|i: int, j: int|
        0 <= i < caches.len() && 0 <= j < caches.len() && i != j ==> caches[i].model_key@
            != caches[j].model_key@
}

proof fn lemma_caches_map_at(caches: Seq<RenderWorldCache>, i: int)
    requires
        keys_distinct(caches),
        0 <= i < caches.len(),
    ensures
        caches_map(caches).dom().contains(caches[i].model_key@),
        caches_map(caches)[caches[i].model_key@] == caches[i]@,
{
    let k = caches[i].model_key@;
    assert(exists|j: int| 0 <= j < caches.len() && caches[j].model_key@ == k);
    let j = choose|j: int| 0 <= j < caches.len() && caches[j].model_key@ == k;
    assert(j == i);
}

proof fn lemma_caches_map_update(caches: Seq<RenderWorldCache>, i: int, c: RenderWorldCache)
    requires
        keys_distinct(caches),
        0 <= i < caches.len(),
        c.model_key@ == caches[i].model_key@,
    ensures
        keys_distinct(caches.update(i, c)),
        caches_map(caches.update(i, c)) == caches_map(caches).insert(c.model_key@, c@),
{
    let n = caches.update(i, c);
    assert(keys_distinct(n)) by {
        assert forall|a: int, b: int|
            0 <= a < n.len() && 0 <= b < n.len() && a != b implies n[a].model_key@ != n[b].model_key@ by {
            if a != i && b != i {
                assert(n[a] == caches[a] && n[b] == caches[b]);
            } else if a == i {
                assert(n[b] == caches[b]);
            } else {
                assert(n[a] == caches[a]);
            }
        }
    }
    let m1 = caches_map(n);
    let m2 = caches_map(caches).insert(c.model_key@, c@);
    assert forall|k: Seq<char>| #![auto] m1.dom().contains(k) <==> m2.dom().contains(k) by {
        if m1.dom().contains(k) {
            let j = choose|j: int| 0 <= j < n.len() && n[j].model_key@ == k;
            if j != i {
                assert(caches[j].model_key@ == k);
            }
        }
        if m2.dom().contains(k) && k != c.model_key@ {
            let j = choose|j: int| 0 <= j < caches.len() && caches[j].model_key@ == k;
            assert(j != i);
            assert(n[j].model_key@ == k);
        }
        if k == c.model_key@ {
            assert(n[i].model_key@ == k);
        }
    }
    assert forall|k: Seq<char>| #![auto] m1.dom().contains(k) implies m1[k] == m2[k] by {
        let j = choose|j: int| 0 <= j < n.len() && n[j].model_key@ == k;
        lemma_caches_map_at(n, j);
        if j == i {
            assert(n[j] == c);
        } else {
            assert(n[j] == caches[j]);
            lemma_caches_map_at(caches, j);
        }
    }
    assert(m1 =~= m2);
}

proof fn lemma_caches_map_push(caches: Seq<RenderWorldCache>, c: RenderWorldCache)
    requires
        keys_distinct(caches),
        !caches_map(caches).dom().contains(c.model_key@),
    ensures
        keys_distinct(caches.push(c)),
        caches_map(caches.push(c)) == caches_map(caches).insert(c.model_key@, c@),
{
    let n = caches.push(c);
    assert(keys_distinct(n)) by {
        assert forall|a: int, b: int|
            0 <= a < n.len() && 0 <= b < n.len() && a != b implies n[a].model_key@ != n[b].model_key@ by {
            if a < caches.len() && b < caches.len() {
                assert(n[a] == caches[a] && n[b] == caches[b]);
            } else if a < caches.len() {
                assert(n[a] == caches[a]);
                assert(caches[a].model_key@ != c.model_key@);
            } else {
                assert(n[b] == caches[b]);
                assert(caches[b].model_key@ != c.model_key@);
            }
        }
    }
    let m1 = caches_map(n);
    let m2 = caches_map(caches).insert(c.model_key@, c@);
    assert forall|k: Seq<char>| #![auto] m1.dom().contains(k) <==> m2.dom().contains(k) by {
        if m1.dom().contains(k) {
            let j = choose|j: int| 0 <= j < n.len() && n[j].model_key@ == k;
            if j < caches.len() {
                assert(caches[j].model_key@ == k);
            }
        }
        if m2.dom().contains(k) && k != c.model_key@ {
            let j = choose|j: int| 0 <= j < caches.len() && caches[j].model_key@ == k;
            assert(n[j].model_key@ == k);
        }
        if k == c.model_key@ {
            assert(n[caches.len() as int].model_key@ == k);
        }
    }
    assert forall|k: Seq<char>| #![auto] m1.dom().contains(k) implies m1[k] == m2[k] by {
        let j = choose|j: int| 0 <= j < n.len() && n[j].model_key@ == k;
        lemma_caches_map_at(n, j);
        if j < caches.len() {
            assert(n[j] == caches[j]);
            lemma_caches_map_at(caches, j);
        }
    }
    assert(m1 =~= m2);
}

/// Plans snapshots of several models, keeping per model what does not change from
/// frame to frame.
pub struct RenderWorld {
    caches: Vec<RenderWorldCache>,
}

impl View for RenderWorld {
    type V = Map<Seq<char>, CacheView>;

    closed spec fn view(&self) -> Map<Seq<char>, CacheView> {
        caches_map(self.caches@)
    }
}

impl RenderWorld {
    /// The world's caches are consistent and there is at most one per model key.
    pub closed spec fn wf(&self) -> bool {
        &&& keys_distinct(self.caches@)
        &&& forall|i: int| 0 <= i < self.caches@.len() ==> (#[trigger] self.caches@[i]).wf()
    }

    pub proof fn lemma_wf_view(&self)
        requires
            self.wf(),
        ensures
            world_wf(self@),
    {
        assert forall|k: Seq<char>| self@.dom().contains(k) implies cache_wf(#[trigger] self@[k]) by {
            let j = choose|j: int| 0 <= j < self.caches@.len() && self.caches@[j].model_key@ == k;
            lemma_caches_map_at(self.caches@, j);
        }
    }

    pub fn new() -> (r: Self)
        ensures
            r.wf(),
            r@ == Map::<Seq<char>, CacheView>::empty(),
    {
        let r = RenderWorld { caches: Vec::new() };
        assert(r@ =~= Map::<Seq<char>, CacheView>::empty());
        r
    }

    /// Drops every cache.
    pub fn clear(&mut self)
        ensures
            final(self).wf(),
            final(self)@ == Map::<Seq<char>, CacheView>::empty(),
    {
        self.caches = Vec::new();
        assert(self@ =~= Map::<Seq<char>, CacheView>::empty());
    }

    /// Number of models the world keeps a cache for.
    pub fn cache_count(&self) -> (r: usize)
        requires
            self.wf(),
        ensures
            r == self@.dom().len(),
    {
        proof {
            self.lemma_dom_len();
        }
        self.caches.len()
    }

    proof fn lemma_dom_len(&self)
        requires
            self.wf(),
        ensures
            self@.dom().len() == self.caches@.len(),
    {
        let keys = self.caches@.map_values(|c: RenderWorldCache| c.model_key@);
        assert forall|i: int, j: int| 0 <= i < j < keys.len() implies keys[i] != keys[j] by {}
        assert(keys.no_duplicates());
        keys.unique_seq_to_set();
        assert(self@.dom() =~= keys.to_set()) by {
            assert forall|k: Seq<char>| #![auto] self@.dom().contains(k) <==> keys.to_set().contains(k) by {
                if self@.dom().contains(k) {
                    let j = choose|j: int| 0 <= j < self.caches@.len() && self.caches@[j].model_key@ == k;
                    assert(keys[j] == k);
                }
                if keys.to_set().contains(k) {
                    let j = choose|j: int| 0 <= j < keys.len() && keys[j] == k;
                    assert(self.caches@[j].model_key@ == k);
                }
            }
        }
    }
}

proof fn lemma_vertex_starts(vr: Seq<Range<u32>>, ds: Seq<DrawableView>, res: Seq<usize>, r: int)
    requires
        ranges_contiguous(vr),
        vr.len() == res.len(),
        0 <= r <= res.len(),
        forall|t: int| 0 <= t < res.len() ==> ds[res[t] as int].vertices.len() == (#[trigger] vr[t]).end - vr[t].start,
    ensures
        r < res.len() ==> vr[r].start == vertex_total(ds, res, r as nat),
        r == res.len() && r > 0 ==> vr[r - 1].end == vertex_total(ds, res, r as nat),
    decreases r,
{
    if r > 0 {
        lemma_vertex_starts(vr, ds, res, r - 1);
        if r < res.len() {
            assert(vr[r].start == vr[r - 1].end);
        }
    }
}

proof fn lemma_index_starts(ir: Seq<Range<u32>>, ds: Seq<DrawableView>, res: Seq<usize>, r: int)
    requires
        ranges_contiguous(ir),
        ir.len() == res.len(),
        0 <= r <= res.len(),
        forall|t: int| 0 <= t < res.len() ==> ds[res[t] as int].indices.len() == (#[trigger] ir[t]).end - ir[t].start,
    ensures
        r < res.len() ==> ir[r].start == index_total(ds, res, r as nat),
        r == res.len() && r > 0 ==> ir[r - 1].end == index_total(ds, res, r as nat),
    decreases r,
{
    if r > 0 {
        lemma_index_starts(ir, ds, res, r - 1);
        if r < res.len() {
            assert(ir[r].start == ir[r - 1].end);
        }
    }
}

/// Contiguous ranges with the drawables' sizes are the packed ranges.
proof fn lemma_ranges_agree(
    vr: Seq<Range<u32>>,
    ir: Seq<Range<u32>>,
    ds: Seq<DrawableView>,
    res: Seq<usize>,
)
    requires
        ranges_contiguous(vr),
        ranges_contiguous(ir),
        vr.len() == res.len(),
        ir.len() == res.len(),
        forall|t: int| 0 <= t < res.len() ==> ds[res[t] as int].vertices.len() == (#[trigger] vr[t]).end - vr[t].start,
        forall|t: int| 0 <= t < res.len() ==> ds[res[t] as int].indices.len() == (#[trigger] ir[t]).end - ir[t].start,
    ensures
        vr == Seq::new(res.len(), |r: int| vertex_range_of(ds, res, r)),
        ir == Seq::new(res.len(), |r: int| index_range_of(ds, res, r)),
{
    assert forall|r: int| 0 <= r < res.len() implies vr[r] == vertex_range_of(ds, res, r) && ir[r] == index_range_of(ds, res, r) by {
        lemma_vertex_starts(vr, ds, res, r);
        lemma_index_starts(ir, ds, res, r);
    }
    assert(vr =~= Seq::new(res.len(), |r: int| vertex_range_of(ds, res, r)));
    assert(ir =~= Seq::new(res.len(), |r: int| index_range_of(ds, res, r)));
}

/// The packed ranges of a plannable snapshot are contiguous.
proof fn lemma_fresh_ranges(s: SnapshotView)
    requires
        crate::layout::packing_fits(s),
    ensures
        ranges_contiguous(fresh_layout(s).vertex_ranges),
        ranges_contiguous(fresh_layout(s).index_ranges),
        forall|t: int| 0 <= t < fresh_layout(s).source_indices.len() ==> {
            &&& s.drawables[fresh_layout(s).source_indices[t] as int].vertices.len() == (#[trigger] fresh_layout(s).vertex_ranges[t]).end - fresh_layout(s).vertex_ranges[t].start
            &&& s.drawables[fresh_layout(s).source_indices[t] as int].indices.len() == fresh_layout(s).index_ranges[t].end - fresh_layout(s).index_ranges[t].start
        },
{
    let ds = s.drawables;
    let res = resident_rows(ds);
    let l = fresh_layout(s);
    assert forall|r: int| 0 <= r < res.len() implies {
        &&& l.vertex_ranges[r].start == vertex_total(ds, res, r as nat)
        &&& l.vertex_ranges[r].end == vertex_total(ds, res, (r + 1) as nat)
        &&& l.index_ranges[r].start == index_total(ds, res, r as nat)
        &&& l.index_ranges[r].end == index_total(ds, res, (r + 1) as nat)
    } by {
        crate::layout::lemma_totals_monotone(ds, res, (r + 1) as nat, res.len());
        crate::layout::lemma_totals_monotone(ds, res, r as nat, (r + 1) as nat);
    }
    assert forall|r: int| 0 < r < res.len() implies (#[trigger] l.vertex_ranges[r]).start == l.vertex_ranges[r - 1].end && l.index_ranges[r].start == l.index_ranges[r - 1].end by {
        assert(l.vertex_ranges[r - 1].end == vertex_total(ds, res, r as nat));
        assert(l.index_ranges[r - 1].end == index_total(ds, res, r as nat));
    }
    assert forall|r: int| 0 < r < res.len() implies (#[trigger] l.index_ranges[r]).start == l.index_ranges[r - 1].end by {
        assert(l.index_ranges[r - 1].end == index_total(ds, res, r as nat));
    }
}

proof fn lemma_fresh_cache_wf(s: SnapshotView, rows: Seq<usize>)
    requires
        plannable(s),
        s.drawables.len() <= usize::MAX,
        rows_in_render_order(rows, fresh_layout(s).render_orders),
    ensures
        cache_wf(fresh_cache(s)),
{
    lemma_fresh_ranges(s);
    lemma_fresh_layout_fits(s, rows);
    let c = fresh_cache(s);
    let l = c.layout;
    assert forall|r: int| 0 <= r < l.source_indices.len() implies {
        &&& (#[trigger] c.model.drawables[r]).vertex_range == l.vertex_ranges[r]
        &&& c.model.drawables[r].index_range == l.index_ranges[r]
        &&& c.model.drawables[r].drawable_id == c.facts[r].id
    } by {}
}

/// A matching cache has the snapshot's rows, packed ranges, row facts and model context.
proof fn lemma_matching_cache_rows(c: CacheView, s: SnapshotView)
    requires
        cache_wf(c),
        cache_matches(c, s),
    ensures
        c.layout.source_indices == resident_rows(s.drawables),
        c.layout.vertex_ranges == fresh_layout(s).vertex_ranges,
        c.layout.index_ranges == fresh_layout(s).index_ranges,
        c.facts == row_facts(s.drawables, resident_rows(s.drawables)),
        c.model == model_of(s.drawables, fresh_layout(s)),
{
    let ds = s.drawables;
    let res = resident_rows(ds);
    assert forall|r: int| 0 <= r < res.len() implies #[trigger] c.layout.source_indices[r] == res[r] by {
        assert(row_agrees(c, s, r));
    }
    assert(c.layout.source_indices =~= res);
    assert forall|r: int| 0 <= r < res.len() implies ds[res[r] as int].vertices.len() == (#[trigger] c.layout.vertex_ranges[r]).end - c.layout.vertex_ranges[r].start by {
        assert(row_agrees(c, s, r));
    }
    assert forall|r: int| 0 <= r < res.len() implies ds[res[r] as int].indices.len() == (#[trigger] c.layout.index_ranges[r]).end - c.layout.index_ranges[r].start by {
        assert(row_agrees(c, s, r));
    }
    lemma_ranges_agree(c.layout.vertex_ranges, c.layout.index_ranges, ds, res);
    assert forall|r: int| 0 <= r < res.len() implies #[trigger] c.facts[r] == row_facts(ds, res)[r] by {
        assert(row_agrees(c, s, r));
    }
    assert(c.facts =~= row_facts(ds, res));
    let fm = model_of(ds, fresh_layout(s));
    assert forall|r: int| 0 <= r < res.len() implies #[trigger] c.model.drawables[r] == fm.drawables[r] by {
        assert(row_agrees(c, s, r));
    }
    assert(c.model.drawables =~= fm.drawables);
    assert(c.model =~= fm);
}

/// A world plans a snapshot exactly as the planner does, except when it keeps a cache
/// for the snapshot's model that still matches the snapshot but whose mask passes were
/// numbered under another draw order than the snapshot's.
pub proof fn law_world_plans_like_planner(m: Map<Seq<char>, CacheView>, s: SnapshotView)
    requires
        world_wf(m),
        plannable(s),
        match cache_lookup(m, s.model_key) {
            Some(c) => cache_matches(c, s) ==> c.mask_rows == render_order_rows(
                row_render_orders(s.drawables, c.layout.source_indices),
            ),
            None => true,
        },
    ensures
        world_plan(m, s) == planned(s),
{
    match cache_lookup(m, s.model_key) {
        None => {},
        Some(c) => {
            if cache_matches(c, s) {
                assert(cache_wf(m[s.model_key]));
                lemma_matching_cache_rows(c, s);
                let f = fresh_layout(s);
                let n = refreshed(c, s);
                let orders = row_render_orders(s.drawables, c.layout.source_indices);
                assert(f.render_orders == orders);
                if orders == c.layout.render_orders {
                    lemma_render_order_rows(c.layout.ordered_rows, orders);
                }
                assert(n.layout.ordered_rows == f.ordered_rows);
                assert(n.layout =~= f);
            }
        },
    }
}

/// A world that numbers its mask groups afresh whenever the draw order changes plans a
/// snapshot exactly as the planner does, as long as each of its caches has its mask
/// groups numbered under its own draw order; the cache it keeps afterwards has too.
pub proof fn law_renumbering_world_plans_like_planner(m: Map<Seq<char>, CacheView>, s: SnapshotView)
    requires
        world_wf(m),
        masks_current(m),
        plannable(s),
    ensures
        world_plan_renumbered(m, s) == planned(s),
        masks_current(
            m.insert(s.model_key, next_cache_renumbered(cache_lookup(m, s.model_key), s)),
        ),
{
    let n = next_cache_renumbered(cache_lookup(m, s.model_key), s);
    match cache_lookup(m, s.model_key) {
        None => {},
        Some(c) => {
            if cache_matches(c, s) {
                assert(cache_wf(m[s.model_key]));
                assert(c.mask_rows == c.layout.ordered_rows);
                lemma_matching_cache_rows(c, s);
                let f = fresh_layout(s);
                let orders = row_render_orders(s.drawables, c.layout.source_indices);
                assert(f.render_orders == orders);
                if orders == c.layout.render_orders {
                    lemma_render_order_rows(c.layout.ordered_rows, orders);
                    law_world_plans_like_planner(m, s);
                } else {
                    assert(n.layout =~= f);
                }
            }
        },
    }
    let m2 = m.insert(s.model_key, n);
    assert forall|k: Seq<char>| m2.dom().contains(k) implies (#[trigger] m2[k]).mask_rows
        == m2[k].layout.ordered_rows by {
        if k != s.model_key {
            assert(m2[k] == m[k]);
        }
    }
}

proof fn lemma_refreshed_matches(c: CacheView, s: SnapshotView)
    requires
        cache_matches(c, s),
    ensures
        cache_matches(refreshed(c, s), s),
{
    let n = refreshed(c, s);
    let res = resident_rows(s.drawables);
    assert forall|r: int| 0 <= r < n.layout.source_indices.len() implies #[trigger] row_agrees(n, s, r) by {
        assert(row_agrees(c, s, r));
    }
}

proof fn lemma_renumbered_matches(c: CacheView, s: SnapshotView)
    requires
        cache_matches(c, s),
    ensures
        cache_matches(with_masks_renumbered(c), s),
{
    let n = with_masks_renumbered(c);
    assert forall|r: int| 0 <= r < n.layout.source_indices.len() implies #[trigger] row_agrees(n, s, r) by {
        assert(row_agrees(c, s, r));
    }
}

proof fn lemma_fresh_cache_matches(s: SnapshotView)
    requires
        plannable(s),
        s.drawables.len() <= usize::MAX,
    ensures
        cache_matches(fresh_cache(s), s),
{
    let c = fresh_cache(s);
    let res = resident_rows(s.drawables);
    lemma_fresh_ranges(s);
    lemma_resident_prefix(s.drawables, s.drawables.len());
    assert forall|r: int| 0 <= r < c.layout.source_indices.len() implies #[trigger] row_agrees(c, s, r) by {
        assert(crate::layout::is_resident(s.drawables, res[r] as int));
    }
}

/// A fresh cache for the snapshot.
fn build_render_world_cache(snapshot: &ModelSnapshot) -> (c: RenderWorldCache)
    requires
        plannable(snapshot@),
    ensures
        c.wf(),
        c@ == fresh_cache(snapshot@),
        c.model_key@ == snapshot@.model_key,
{
    let ghost s = snapshot@;
    let ghost ds = s.drawables;
    assert(ds.len() == snapshot.drawables.len());
    let table = build_drawable_table(snapshot);
    let model = build_model_ctx(snapshot, &table);
    let ordered_rows = sorted_drawable_rows(&table);
    proof {
        lemma_fresh_layout_fits(s, ordered_rows@);
        lemma_fresh_cache_wf(s, ordered_rows@);
    }
    let mask_table = build_mask_group_table(snapshot, &table, &ordered_rows);
    let n = table.len();
    let mut clipping_by_row: Vec<Option<ClippingInfo>> = Vec::new();
    let mut draw_enabled_by_row: Vec<bool> = Vec::new();
    let ghost facts = row_facts(ds, table.source_indices@);
    let mut r: usize = 0;
    while r < n
        invariant
            r <= n,
            n == table.source_indices@.len(),
            table.lays_out(s),
            s == snapshot@,
            ds == s.drawables,
            layout_fits(s, fresh_layout(s)),
            facts == row_facts(ds, table.source_indices@),
            clipping_by_row@.len() == r,
            draw_enabled_by_row@.len() == r,
            forall|t: int| 0 <= t < r ==> clipping_view(#[trigger] clipping_by_row@[t]) == facts[t].clipping,
            forall|t: int| 0 <= t < r ==> #[trigger] draw_enabled_by_row@[t] == facts[t].drawn,
        decreases n - r,
    {
        let drawable = &snapshot.drawables[table.source_indices[r]];
        assert(ds[table.source_indices@[r as int] as int] == drawable@);
        clipping_by_row.push(clone_clipping(&drawable.clipping));
        draw_enabled_by_row.push(drawable_should_draw(drawable));
        r = r + 1;
    }
    let cache = RenderWorldCache {
        model_key: snapshot.model_key.clone(),
        model,
        table,
        ordered_rows,
        mask_table,
        clipping_by_row,
        draw_enabled_by_row,
        mask_rows: Ghost(ordered_rows@),
    };
    assert forall|t: int| 0 <= t < n implies (#[trigger] cache@.facts[t]) == fresh_cache(s).facts[t] by {
        assert(cache.model.drawables@[t]@ == cache@.model.drawables[t]);
    }
    assert(cache@.facts =~= fresh_cache(s).facts);
    assert(cache@.layout =~= fresh_cache(s).layout);
    cache
}

/// Whether the cache can be reused for the snapshot.
fn render_world_cache_matches(cache: &RenderWorldCache, snapshot: &ModelSnapshot) -> (r: bool)
    requires
        cache.wf(),
    ensures
        r == cache_matches(cache@, snapshot@),
{
    let ghost s = snapshot@;
    let ghost ds = s.drawables;
    let ghost c = cache@;
    let resident = resident_drawable_indices(snapshot);
    let n = cache.table.len();
    if resident.len() != n {
        return false;
    }
    let mut row: usize = 0;
    while row < n
        invariant
            row <= n,
            n == cache.table.source_indices@.len(),
            resident@ == resident_rows(ds),
            resident@.len() == n,
            s == snapshot@,
            ds == s.drawables,
            c == cache@,
            cache.wf(),
            forall|t: int| 0 <= t < row ==> #[trigger] row_agrees(c, s, t),
        decreases n - row,
    {
        let source_index = cache.table.source_indices[row];
        if resident[row] != source_index {
            assert(!row_agrees(c, s, row as int));
            return false;
        }
        if source_index >= snapshot.drawables.len() {
            assert(!row_agrees(c, s, row as int));
            return false;
        }
        let drawable = &snapshot.drawables[source_index];
        assert(ds[source_index as int] == drawable@);
        let model_drawable = &cache.model.drawables[row];
        assert(c.model.drawables[row as int] == model_drawable@);
        let vertex_range = &cache.table.vertex_ranges[row];
        let index_range = &cache.table.index_ranges[row];
        assert(c.layout.vertex_ranges[row as int] == *vertex_range);
        let vertex_count = (vertex_range.end - vertex_range.start) as usize;
        let index_count = (index_range.end - index_range.start) as usize;
        assert(c.facts[row as int].clipping == clipping_view(cache.clipping_by_row@[row as int]));
        if drawable.vertices.len() == 0 || drawable.indices.len() == 0
            || !drawable.id.same_as(&model_drawable.drawable_id)
            || drawable.texture_index != model_drawable.texture_index
            || drawable.vertices.len() != vertex_count || drawable.indices.len() != index_count
            || !same_clipping(&drawable.clipping, &cache.clipping_by_row[row])
            || drawable_should_draw(drawable) != cache.draw_enabled_by_row[row] {
            assert(!row_matches(c, ds, row as int));
            assert(!row_agrees(c, s, row as int));
            return false;
        }
        assert(c.facts[row as int].drawn == cache.draw_enabled_by_row@[row as int]);
        assert(c.facts[row as int].clipping == clipping_view(cache.clipping_by_row@[row as int]));
        assert(row_matches(c, ds, row as int));
        assert(row_agrees(c, s, row as int));
        row = row + 1;
    }
    true
}

/// Takes the snapshot's render orders into the cache, re-sorting the draw order if any
/// changed; returns whether any changed.
fn refresh_cached_render_order(snapshot: &ModelSnapshot, cache: &mut RenderWorldCache) -> (changed:
    bool)
    requires
        old(cache).wf(),
        cache_matches(old(cache)@, snapshot@),
    ensures
        final(cache).wf(),
        final(cache)@ == refreshed(old(cache)@, snapshot@),
        final(cache).model_key == old(cache).model_key,
        changed == (row_render_orders(snapshot@.drawables, old(cache)@.layout.source_indices)
            != old(cache)@.layout.render_orders),
{
    let ghost s = snapshot@;
    let ghost ds = s.drawables;
    let ghost c0 = cache@;
    let ghost target = row_render_orders(ds, c0.layout.source_indices);
    let n = cache.table.len();
    let mut changed = false;
    let mut row: usize = 0;
    while row < n
        invariant
            row <= n,
            n == c0.layout.source_indices.len(),
            s == snapshot@,
            ds == s.drawables,
            c0 == old(cache)@,
            cache_matches(c0, s),
            cache.table.source_indices@ == c0.layout.source_indices,
            cache.table.vertex_ranges@ == c0.layout.vertex_ranges,
            cache.table.index_ranges@ == c0.layout.index_ranges,
            cache.table.render_orders@.len() == n,
            cache.model == old(cache).model,
            cache.model_key == old(cache).model_key,
            cache.ordered_rows == old(cache).ordered_rows,
            cache.mask_table == old(cache).mask_table,
            cache.clipping_by_row == old(cache).clipping_by_row,
            cache.draw_enabled_by_row == old(cache).draw_enabled_by_row,
            cache.mask_rows == old(cache).mask_rows,
            target == row_render_orders(ds, c0.layout.source_indices),
            forall|t: int| 0 <= t < row ==> cache.table.render_orders@[t] == target[t],
            forall|t: int| row <= t < n ==> cache.table.render_orders@[t] == c0.layout.render_orders[t],
            changed == (exists|t: int| 0 <= t < row && target[t] != c0.layout.render_orders[t]),
        decreases n - row,
    {
        let source_index = cache.table.source_indices[row];
        assert(row_agrees(c0, s, row as int));
        let render_order = snapshot.drawables[source_index].render_order;
        assert(ds[source_index as int] == snapshot.drawables@[source_index as int]@);
        assert(render_order == target[row as int]);
        if cache.table.render_orders[row] != render_order {
            cache.table.render_orders.set(row, render_order);
            changed = true;
        }
        row = row + 1;
    }
    assert(cache.table.render_orders@ =~= target);
    if changed {
        assert(target != c0.layout.render_orders);
        cache.ordered_rows = sorted_drawable_rows(&cache.table);
    } else {
        assert(target =~= c0.layout.render_orders);
    }
    changed
}

/// Numbers the cache's mask groups afresh under its draw order.
fn renumber_cached_masks(snapshot: &ModelSnapshot, cache: &mut RenderWorldCache)
    requires
        old(cache).wf(),
        cache_matches(old(cache)@, snapshot@),
        old(cache)@.layout.render_orders == row_render_orders(
            snapshot@.drawables,
            old(cache)@.layout.source_indices,
        ),
    ensures
        final(cache).wf(),
        final(cache)@ == with_masks_renumbered(old(cache)@),
        final(cache).model_key == old(cache).model_key,
{
    let ghost s = snapshot@;
    let ghost c0 = cache@;
    proof {
        lemma_matching_cache_rows(c0, s);
        assert(cache.table.lays_out(s));
    }
    let mask_table = build_mask_group_table(snapshot, &cache.table, &cache.ordered_rows);
    cache.mask_table = mask_table;
    cache.mask_rows = Ghost(cache.ordered_rows@);
    proof {
        assert(cache@.facts =~= c0.facts);
        assert(cache@.layout =~= with_masks_renumbered(c0).layout);
    }
}

/// Copies a list of mask passes.
fn clone_masks(v: &Vec<MaskPass>) -> (r: Vec<MaskPass>)
    ensures
        r@.len() == v@.len(),
        masks_view(r@) == masks_view(v@),
        pass_keys(r@) == pass_keys(v@),
        forall|i: int| 0 <= i < r@.len() ==> (#[trigger] r@[i]).id == v@[i].id,
{
    let mut out: Vec<MaskPass> = Vec::new();
    let mut i: usize = 0;
    while i < v.len()
        invariant
            i <= v.len(),
            out@.len() == i,
            forall|k: int| 0 <= k < i ==> (#[trigger] out@[k])@ == v@[k]@,
        decreases v.len() - i,
    {
        out.push(v[i].clone());
        i = i + 1;
    }
    assert(masks_view(out@) =~= masks_view(v@));
    assert(pass_keys(out@) =~= pass_keys(v@));
    out
}

/// The commands of a matching cache whose render orders are the snapshot's come to an
/// end where the snapshot's own do.
proof fn lemma_cache_commands_end(c: CacheView, s: SnapshotView)
    requires
        cache_wf(c),
        cache_matches(c, s),
        c.layout.render_orders == row_render_orders(s.drawables, c.layout.source_indices),
        plannable(s),
    ensures
        commands_end(s, draws_of(s.drawables, c.layout)),
{
    lemma_matching_cache_rows(c, s);
    lemma_render_order_rows(c.layout.ordered_rows, c.layout.render_orders);
    let f = fresh_layout(s);
    assert(c.layout.ordered_rows == f.ordered_rows);
    lemma_draw_ids_same_rows(s.drawables, c.layout, f);
    lemma_commands_end_same_ids(s, draws_of(s.drawables, c.layout), draws_of(s.drawables, f));
}

/// The plan for a snapshot from a cache that matches it.
fn render_plan_from_cache(snapshot: &ModelSnapshot, cache: &RenderWorldCache) -> (plan: RenderPlan)
    requires
        cache.wf(),
        cache_matches(cache@, snapshot@),
        plannable(snapshot@),
        cache@.layout.render_orders == row_render_orders(snapshot@.drawables, cache@.layout.source_indices),
    ensures
        plan@ == plan_from(snapshot@, cache@.layout, cache@.model),
{
    let ghost s = snapshot@;
    let ghost l = cache@.layout;
    assert(layout_fits(s, l)) by {
        assert forall|r: int| 0 <= r < l.source_indices.len() implies l.source_indices[r] < s.drawables.len() by {
            assert(row_agrees(cache@, s, r));
        }
    }
    let draws = draw_commands_for_visible_rows(
        snapshot,
        &cache.table,
        &cache.ordered_rows,
        &cache.mask_table,
        Ghost(l),
    );
    let mask_draws = mask_draw_commands_from_table(snapshot, &cache.table, &cache.mask_table, Ghost(l));
    proof {
        lemma_cache_commands_end(cache@, s);
    }
    let commands = render_commands(snapshot, &draws);
    let masks = clone_masks(&cache.mask_table.masks);
    proof {
        assert forall|i: int| 0 <= i < masks@.len() implies (#[trigger] masks@[i]).id == MaskRef(i as usize) by {
            assert(cache.mask_table.masks@[i].id == MaskRef(i as usize));
        }
        lemma_masks_view(masks@);
    }
    RenderPlan {
        model: cache.model.clone(),
        masks,
        mask_draws,
        draws,
        offscreens: clone_offscreens(&snapshot.offscreens),
        commands,
    }
}

impl RenderWorld {
    /// The plan for a snapshot, reusing and refreshing the cache kept for its model.
    pub fn build(&mut self, snapshot: &ModelSnapshot) -> (plan: RenderPlan)
        requires
            old(self).wf(),
            plannable(snapshot@),
        ensures
            final(self).wf(),
            plan@ == world_plan(old(self)@, snapshot@),
            final(self)@ == old(self)@.insert(
                snapshot@.model_key,
                next_cache(cache_lookup(old(self)@, snapshot@.model_key), snapshot@),
            ),
    {
        self.build_from_cache(snapshot, false)
    }

    /// The plan for a snapshot, reusing and refreshing the cache kept for its model; when
    /// the snapshot changes the draw order, the cached mask groups are numbered afresh
    /// under the new order.
    pub fn build_with_mask_refresh(&mut self, snapshot: &ModelSnapshot) -> (plan: RenderPlan)
        requires
            old(self).wf(),
            plannable(snapshot@),
        ensures
            final(self).wf(),
            plan@ == world_plan_renumbered(old(self)@, snapshot@),
            final(self)@ == old(self)@.insert(
                snapshot@.model_key,
                next_cache_renumbered(cache_lookup(old(self)@, snapshot@.model_key), snapshot@),
            ),
    {
        self.build_from_cache(snapshot, true)
    }

    fn build_from_cache(&mut self, snapshot: &ModelSnapshot, renumber: bool) -> (plan: RenderPlan)
        requires
            old(self).wf(),
            plannable(snapshot@),
        ensures
            final(self).wf(),
            plan@ == (if renumber {
                world_plan_renumbered(old(self)@, snapshot@)
            } else {
                world_plan(old(self)@, snapshot@)
            }),
            final(self)@ == old(self)@.insert(
                snapshot@.model_key,
                if renumber {
                    next_cache_renumbered(cache_lookup(old(self)@, snapshot@.model_key), snapshot@)
                } else {
                    next_cache(cache_lookup(old(self)@, snapshot@.model_key), snapshot@)
                },
            ),
    {
        let ghost key = snapshot@.model_key;
        let ghost old_caches = self.caches@;
        assert(snapshot@.drawables.len() == snapshot.drawables.len());
        let mut found: Option<usize> = None;
        let mut i: usize = 0;
        while i < self.caches.len()
            invariant_except_break
                found is None,
            invariant
                i <= self.caches@.len(),
                self.caches@ == old_caches,
                key == snapshot@.model_key,
                forall|j: int| 0 <= j < i ==> (#[trigger] old_caches[j]).model_key@ != key,
            ensures
                match found {
                    Some(k) => k < old_caches.len() && old_caches[k as int].model_key@ == key,
                    None => forall|j: int| 0 <= j < old_caches.len() ==> (#[trigger] old_caches[j]).model_key@ != key,
                },
            decreases self.caches@.len() - i,
        {
            if self.caches[i].model_key == snapshot.model_key {
                found = Some(i);
                break;
            }
            i = i + 1;
        }
        match found {
            Some(index) => {
                proof {
                    lemma_caches_map_at(old_caches, index as int);
                    assert(self.caches@[index as int].wf());
                }
                if render_world_cache_matches(&self.caches[index], snapshot) {
                    let mut cache = self.caches.remove(index);
                    let changed = refresh_cached_render_order(snapshot, &mut cache);
                    proof {
                        lemma_refreshed_matches(old_caches[index as int]@, snapshot@);
                    }
                    if renumber && changed {
                        renumber_cached_masks(snapshot, &mut cache);
                        proof {
                            lemma_renumbered_matches(refreshed(old_caches[index as int]@, snapshot@), snapshot@);
                        }
                    }
                    let plan = render_plan_from_cache(snapshot, &cache);
                    self.caches.insert(index, cache);
                    proof {
                        assert(self.caches@ =~= old_caches.update(index as int, cache));
                        lemma_caches_map_update(old_caches, index as int, cache);
                    }
                    plan
                } else {
                    let cache = build_render_world_cache(snapshot);
                    proof {
                        lemma_fresh_cache_matches(snapshot@);
                    }
                    let plan = render_plan_from_cache(snapshot, &cache);
                    self.caches.set(index, cache);
                    proof {
                        lemma_caches_map_update(old_caches, index as int, cache);
                    }
                    plan
                }
            },
            None => {
                let cache = build_render_world_cache(snapshot);
                proof {
                    lemma_fresh_cache_matches(snapshot@);
                }
                assert(!caches_map(old_caches).dom().contains(key));
                let plan = render_plan_from_cache(snapshot, &cache);
                self.caches.push(cache);
                proof {
                    lemma_caches_map_push(old_caches, cache);
                }
                plan
            },
        }
    }
}

} // verus!
