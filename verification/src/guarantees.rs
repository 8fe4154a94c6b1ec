use crate::layout::{
    lemma_totals_monotone, packing_fits, is_resident, is_resident_id, lemma_key_position, lemma_render_order_rows_sorted,
    lemma_resident_prefix, mask_key_of, mask_keys, mask_keys_upto, mask_refs, render_order_rows,
    resident_ids_in, resident_prefix, resident_rows, row_before, row_facts, rows_in_render_order,
    should_draw, MaskKey, RowFacts,
};
use crate::model::{DrawableView, MaskRef, SnapshotView};
use crate::plan::{
    mask_draw_rows, mask_draws_of, masks_name, MaskPassView, model_of, ModelCtxView, draws_of, drawn_rows, fresh_layout, mask_passes_of, planned, row_command, row_render_orders,
    DrawCommandView, PlanLayout, RenderPlanView,
};
use crate::dispatch::{
    call_in_range, dispatch_calls_of, find_draw, mask_id_calls, mask_pass_calls, BackendCall,
};
use vstd::prelude::*;

verus! {

/// Drawable `a` is drawn before drawable `b`: lower render order first, and within one
/// render order, earlier in the snapshot first.
pub open spec fn draws_before(ds: Seq<DrawableView>, a: usize, b: usize) -> bool {
    ds[a as int].render_order < ds[b as int].render_order || (ds[a as int].render_order
        == ds[b as int].render_order && a < b)
}

/// A draw call carries what its drawable says of itself.
pub open spec fn draw_of_drawable(draw: DrawCommandView, d: DrawableView) -> bool {
    &&& draw.drawable_id == d.id
    &&& draw.texture_index == d.texture_index
    &&& draw.opacity_bits == d.opacity_bits
    &&& draw.blend_mode == d.blend_mode
    &&& draw.inverted_mask == match d.clipping {
        Some(c) => c.inverted,
        None => false,
    }
}

/// `src` names, for each main-pass draw, the snapshot drawable it draws: every drawable
/// that should be drawn appears, and they come in draw order.
pub open spec fn draws_follow_drawables(
    ds: Seq<DrawableView>,
    draws: Seq<DrawCommandView>,
    src: Seq<usize>,
) -> bool {
    &&& src.len() == draws.len()
    &&& forall|k: int|
        0 <= k < src.len() ==> {
            &&& src[k] < ds.len()
            &&& should_draw(ds[src[k] as int])
            &&& draw_of_drawable(#[trigger] draws[k], ds[src[k] as int])
        }
    &&& forall|d: int| 0 <= d < ds.len() && should_draw(#[trigger] ds[d]) ==> src.contains(d as usize)
    &&& forall|i: int, j: int| 0 <= i < j < src.len() ==> draws_before(ds, src[i], src[j])
}

proof fn lemma_resident_len(ds: Seq<DrawableView>, n: nat)
    requires
        n <= ds.len(),
    ensures
        resident_prefix(ds, n).len() <= n,
    decreases n,
{
    if n > 0 {
        lemma_resident_len(ds, (n - 1) as nat);
    }
}

/// The rows the main pass draws among the first `t` in draw order.
proof fn lemma_drawn_rows(ds: Seq<DrawableView>, l: PlanLayout, t: nat)
    requires
        t <= l.ordered_rows.len(),
        rows_in_render_order(l.ordered_rows, l.render_orders),
    ensures
        forall|i: int|
            #![trigger drawn_rows(ds, l, t)[i]]
            0 <= i < drawn_rows(ds, l, t).len() ==> {
                &&& exists|k: int| 0 <= k < t && l.ordered_rows[k] == drawn_rows(ds, l, t)[i]
                &&& should_draw(ds[l.source_indices[drawn_rows(ds, l, t)[i] as int] as int])
            },
        forall|i: int, j: int|
            0 <= i < j < drawn_rows(ds, l, t).len() ==> row_before(
                l.render_orders,
                drawn_rows(ds, l, t)[i],
                drawn_rows(ds, l, t)[j],
            ),
        forall|k: int|
            0 <= k < t && should_draw(ds[l.source_indices[#[trigger] l.ordered_rows[k] as int] as int])
                ==> drawn_rows(ds, l, t).contains(l.ordered_rows[k]),
    decreases t,
{
    if t > 0 {
        let rows = l.ordered_rows;
        lemma_drawn_rows(ds, l, (t - 1) as nat);
        let p = drawn_rows(ds, l, (t - 1) as nat);
        let q = drawn_rows(ds, l, t);
        let row = rows[t - 1];
        if should_draw(ds[l.source_indices[row as int] as int]) {
            assert(q == p.push(row));
            assert forall|i: int| #![trigger q[i]] 0 <= i < q.len() implies {
                &&& exists|k: int| 0 <= k < t && rows[k] == q[i]
                &&& should_draw(ds[l.source_indices[q[i] as int] as int])
            } by {
                if i < p.len() {
                    assert(q[i] == p[i]);
                    let k = choose|k: int| 0 <= k < t - 1 && rows[k] == p[i];
                    assert(rows[k] == q[i]);
                } else {
                    assert(rows[t - 1] == q[i]);
                }
            }
            assert forall|i: int, j: int| 0 <= i < j < q.len() implies row_before(
                l.render_orders,
                q[i],
                q[j],
            ) by {
                assert(q[i] == p[i]);
                if j < p.len() {
                    assert(q[j] == p[j]);
                } else {
                    let k = choose|k: int| 0 <= k < t - 1 && rows[k] == p[i];
                    assert(row_before(l.render_orders, rows[k], rows[t - 1]));
                }
            }
            assert forall|k: int|
                0 <= k < t && should_draw(ds[l.source_indices[#[trigger] rows[k] as int] as int])
                    implies q.contains(rows[k]) by {
                if k < t - 1 {
                    assert(p.contains(rows[k]));
                    let i = choose|i: int| 0 <= i < p.len() && p[i] == rows[k];
                    assert(q[i] == rows[k]);
                } else {
                    assert(q[p.len() as int] == rows[k]);
                }
            }
        } else {
            assert(q == p);
            assert forall|i: int| #![trigger q[i]] 0 <= i < q.len() implies {
                &&& exists|k: int| 0 <= k < t && rows[k] == q[i]
                &&& should_draw(ds[l.source_indices[q[i] as int] as int])
            } by {
                let k = choose|k: int| 0 <= k < t - 1 && rows[k] == p[i];
                assert(rows[k] == q[i]);
            }
        }
    }
}

/// The drawables behind the main-pass draws of a planned snapshot.
proof fn lemma_draw_sources(s: SnapshotView) -> (src: Seq<usize>)
    requires
        s.drawables.len() <= usize::MAX,
    ensures
        draws_follow_drawables(s.drawables, planned(s).draws, src),
        src.len() == drawn_rows(s.drawables, fresh_layout(s), fresh_layout(s).ordered_rows.len()).len(),
        forall|i: int|
            #![trigger src[i]]
            0 <= i < src.len() ==> {
                let row = drawn_rows(s.drawables, fresh_layout(s), fresh_layout(s).ordered_rows.len())[i];
                &&& row < fresh_layout(s).source_indices.len()
                &&& src[i] == fresh_layout(s).source_indices[row as int]
                &&& planned(s).draws[i] == row_command(s.drawables, fresh_layout(s), row as int)
            },
{
    let ds = s.drawables;
    let l = fresh_layout(s);
    let res = l.source_indices;
    let rows = l.ordered_rows;
    lemma_resident_prefix(ds, ds.len());
    lemma_resident_len(ds, ds.len());
    assert(res == resident_rows(ds));
    assert(l.render_orders == row_render_orders(ds, res));
    lemma_render_order_rows_sorted(l.render_orders);
    assert(rows == render_order_rows(l.render_orders));
    lemma_drawn_rows(ds, l, rows.len());
    let dr = drawn_rows(ds, l, rows.len());
    let draws = draws_of(ds, l);
    assert(draws == planned(s).draws);
    let src = Seq::new(dr.len(), |i: int| res[dr[i] as int]);
    assert(draws.len() == src.len());
    assert forall|i: int| #![trigger dr[i]] 0 <= i < dr.len() implies dr[i] < res.len() by {
        let k = choose|k: int| 0 <= k < rows.len() && rows[k] == dr[i];
    }
    assert forall|k: int| 0 <= k < src.len() implies {
        &&& src[k] < ds.len()
        &&& should_draw(ds[src[k] as int])
        &&& draw_of_drawable(#[trigger] draws[k], ds[src[k] as int])
    } by {
        assert(dr[k] < res.len());
        assert(draws[k] == row_command(ds, l, dr[k] as int));
    }
    assert forall|d: int| 0 <= d < ds.len() && should_draw(#[trigger] ds[d]) implies src.contains(
        d as usize,
    ) by {
        assert(is_resident(ds, d));
        assert(res.contains(d as usize));
        let a = choose|a: int| 0 <= a < res.len() && res[a] == d as usize;
        assert((a as usize) < l.render_orders.len());
        assert(rows.contains(a as usize));
        let k = choose|k: int| 0 <= k < rows.len() && rows[k] == a as usize;
        assert(should_draw(ds[res[rows[k] as int] as int]));
        assert(dr.contains(rows[k]));
        let i = choose|i: int| 0 <= i < dr.len() && dr[i] == rows[k];
        assert(src[i] == d as usize);
    }
    assert forall|i: int, j: int| 0 <= i < j < src.len() implies draws_before(ds, src[i], src[j]) by {
        let a = dr[i];
        let b = dr[j];
        assert(a < res.len() && b < res.len());
        assert(row_before(l.render_orders, a, b));
        if a < b {
            assert(res[a as int] < res[b as int]);
        }
    }
    assert(draws_follow_drawables(ds, planned(s).draws, src));
    assert forall|i: int| #![trigger src[i]] 0 <= i < src.len() implies {
        let row = dr[i];
        &&& row < res.len()
        &&& src[i] == res[row as int]
        &&& planned(s).draws[i] == row_command(ds, l, row as int)
    } by {
        assert(dr[i] < res.len());
    }
    src
}

/// The main pass draws each drawable that should be drawn (visible, above the opacity
/// threshold, with geometry), and no other, lower render order first and, within one
/// render order, in snapshot order; each draw carries its drawable's id, texture,
/// opacity, blend mode and mask inversion.
pub proof fn law_draws_follow_render_order(s: SnapshotView)
    requires
        s.drawables.len() <= usize::MAX,
    ensures
        exists|src: Seq<usize>| draws_follow_drawables(s.drawables, planned(s).draws, src),
{
    let src = lemma_draw_sources(s);
}

/// Some resident drawable (one whose geometry the plan packs) has this id.
pub open spec fn names_resident(ds: Seq<DrawableView>, id: Seq<char>) -> bool {
    exists|d: int| 0 <= d < ds.len() && is_resident(ds, d) && #[trigger] ds[d].id == id
}

/// The ids a clip names that belong to resident drawables, in the clip's order.
pub open spec fn clip_mask_ids(ds: Seq<DrawableView>, ids: Seq<Seq<char>>) -> Seq<Seq<char>> {
    ids.filter(|id: Seq<char>| names_resident(ds, id))
}

/// Position of a mask pass in its plan.
pub open spec fn pass_index(m: MaskRef) -> int {
    m.0 as int
}

/// Each draw's mask follows its drawable's clip: no clip, or a clip that names no
/// resident drawable, draws unmasked; otherwise the draw uses the mask pass that draws
/// exactly the resident drawables the clip names, with the clip's inversion. Draws
/// whose drawables clip alike share one pass, no two passes are alike, and every pass
/// is used by some draw.
pub open spec fn masks_follow_clips(ds: Seq<DrawableView>, plan: RenderPlanView, src: Seq<usize>) -> bool {
    &&& forall|k: int|
        0 <= k < src.len() ==> match ds[src[k] as int].clipping {
            None => (#[trigger] plan.draws[k]).mask is None,
            Some(c) => if clip_mask_ids(ds, c.drawable_ids).len() == 0 {
                plan.draws[k].mask is None
            } else {
                &&& plan.draws[k].mask is Some
                &&& pass_index(plan.draws[k].mask->0) < plan.masks.len()
                &&& plan.masks[pass_index(plan.draws[k].mask->0)].id == plan.draws[k].mask->0
                &&& plan.masks[pass_index(plan.draws[k].mask->0)].drawable_ids == clip_mask_ids(
                    ds,
                    c.drawable_ids,
                )
                &&& plan.masks[pass_index(plan.draws[k].mask->0)].inverted == c.inverted
            },
        }
    &&& forall|i: int, j: int|
        0 <= i < src.len() && 0 <= j < src.len() && ds[src[i] as int].clipping == ds[src[j] as int].clipping
            ==> #[trigger] plan.draws[i].mask == #[trigger] plan.draws[j].mask
    &&& forall|a: int, b: int|
        0 <= a < b < plan.masks.len() ==> !(#[trigger] plan.masks[a].drawable_ids == #[trigger] plan.masks[b].drawable_ids
            && plan.masks[a].inverted == plan.masks[b].inverted)
    &&& forall|m: int|
        0 <= m < plan.masks.len() ==> (#[trigger] plan.masks[m]).id == MaskRef(m as usize) && exists|k: int|
            0 <= k < plan.draws.len() && #[trigger] plan.draws[k].mask == Some(MaskRef(m as usize))
}

proof fn lemma_names_resident(ds: Seq<DrawableView>, id: Seq<char>)
    requires
        ds.len() <= usize::MAX,
    ensures
        is_resident_id(row_facts(ds, resident_rows(ds)), id) == names_resident(ds, id),
{
    let res = resident_rows(ds);
    let facts = row_facts(ds, res);
    lemma_resident_prefix(ds, ds.len());
    if is_resident_id(facts, id) {
        let r = choose|r: int| 0 <= r < facts.len() && #[trigger] facts[r].id == id;
        assert(is_resident(ds, res[r] as int));
        assert(ds[res[r] as int].id == id);
    }
    if names_resident(ds, id) {
        let d = choose|d: int| 0 <= d < ds.len() && is_resident(ds, d) && #[trigger] ds[d].id == id;
        assert(res.contains(d as usize));
        let r = choose|r: int| 0 <= r < res.len() && res[r] == d as usize;
        assert(facts[r].id == id);
    }
}

proof fn lemma_resident_ids_filter(ds: Seq<DrawableView>, ids: Seq<Seq<char>>)
    requires
        ds.len() <= usize::MAX,
    ensures
        resident_ids_in(row_facts(ds, resident_rows(ds)), ids) == clip_mask_ids(ds, ids),
    decreases ids.len(),
{
    reveal(Seq::filter);
    if ids.len() == 0 {
        assert(clip_mask_ids(ds, ids) =~= Seq::<Seq<char>>::empty());
    } else {
        lemma_resident_ids_filter(ds, ids.drop_last());
        lemma_names_resident(ds, ids.last());
        let f = |id: Seq<char>| names_resident(ds, id);
        assert(clip_mask_ids(ds, ids) == ids.filter(f));
        assert(clip_mask_ids(ds, ids.drop_last()) == ids.drop_last().filter(f));
        assert(f(ids.last()) == names_resident(ds, ids.last()));
        if names_resident(ds, ids.last()) {
            assert(ids.filter(f) == ids.drop_last().filter(f).push(ids.last()));
        } else {
            assert(ids.filter(f) == ids.drop_last().filter(f));
        }
    }
}

/// The mask groups of the first `t` rows: none twice, each one of those rows' groups,
/// and every such group among them.
proof fn lemma_mask_keys_upto(facts: Seq<RowFacts>, rows: Seq<usize>, t: nat)
    requires
        t <= rows.len(),
    ensures
        mask_keys_upto(facts, rows, t).len() <= t,
        forall|a: int, b: int|
            0 <= a < b < mask_keys_upto(facts, rows, t).len() ==> #[trigger] mask_keys_upto(facts, rows, t)[a]
                != #[trigger] mask_keys_upto(facts, rows, t)[b],
        forall|m: int|
            0 <= m < mask_keys_upto(facts, rows, t).len() ==> exists|q: int|
                0 <= q < t && mask_key_of(facts, rows[q] as int) == Some(
                    #[trigger] mask_keys_upto(facts, rows, t)[m],
                ),
        forall|q: int|
            0 <= q < t && (#[trigger] mask_key_of(facts, rows[q] as int)) is Some ==> mask_keys_upto(
                facts,
                rows,
                t,
            ).contains(mask_key_of(facts, rows[q] as int)->0),
    decreases t,
{
    if t > 0 {
        lemma_mask_keys_upto(facts, rows, (t - 1) as nat);
        let p = mask_keys_upto(facts, rows, (t - 1) as nat);
        let q = mask_keys_upto(facts, rows, t);
        match mask_key_of(facts, rows[t - 1] as int) {
            Some(k) => {
                if p.contains(k) {
                    assert(q == p);
                } else {
                    assert(q == p.push(k));
                    assert forall|a: int, b: int| 0 <= a < b < q.len() implies #[trigger] q[a] != #[trigger] q[b] by {
                        assert(q[a] == p[a]);
                        if b < p.len() {
                            assert(q[b] == p[b]);
                        } else {
                            assert(p.contains(p[a]));
                        }
                    }
                    assert forall|m: int| 0 <= m < q.len() implies exists|x: int|
                        0 <= x < t && mask_key_of(facts, rows[x] as int) == Some(#[trigger] q[m]) by {
                        if m < p.len() {
                            assert(q[m] == p[m]);
                            let x = choose|x: int| 0 <= x < t - 1 && mask_key_of(facts, rows[x] as int) == Some(p[m]);
                        } else {
                            assert(mask_key_of(facts, rows[t - 1] as int) == Some(q[m]));
                        }
                    }
                    assert forall|x: int|
                        0 <= x < t && (#[trigger] mask_key_of(facts, rows[x] as int)) is Some implies q.contains(
                            mask_key_of(facts, rows[x] as int)->0,
                        ) by {
                        if x < t - 1 {
                            let kk = mask_key_of(facts, rows[x] as int)->0;
                            assert(p.contains(kk));
                            let i = choose|i: int| 0 <= i < p.len() && p[i] == kk;
                            assert(q[i] == kk);
                        } else {
                            assert(q[p.len() as int] == k);
                        }
                    }
                }
            },
            None => {
                assert(q == p);
            },
        }
    }
}

/// The rows behind the main-pass draws of a planned snapshot, in draw order.
spec fn draw_rows(s: SnapshotView) -> Seq<usize> {
    drawn_rows(s.drawables, fresh_layout(s), fresh_layout(s).ordered_rows.len())
}

/// What `lemma_draw_sources` tells of the drawables behind the draws.
spec fn sources_of(s: SnapshotView, src: Seq<usize>) -> bool {
    &&& draws_follow_drawables(s.drawables, planned(s).draws, src)
    &&& src.len() == draw_rows(s).len()
    &&& forall|i: int|
        #![trigger src[i]]
        0 <= i < src.len() ==> {
            let row = draw_rows(s)[i];
            &&& row < fresh_layout(s).source_indices.len()
            &&& src[i] == fresh_layout(s).source_indices[row as int]
            &&& planned(s).draws[i] == row_command(s.drawables, fresh_layout(s), row as int)
        }
}

/// The mask groups of the plan: each drawn row's group is among them, none twice.
proof fn lemma_plan_keys(s: SnapshotView)
    requires
        s.drawables.len() <= usize::MAX,
    ensures
        ({
            let l = fresh_layout(s);
            let facts = row_facts(s.drawables, l.source_indices);
            &&& l.masks == mask_keys(facts, l.ordered_rows)
            &&& rows_in_render_order(l.ordered_rows, l.render_orders)
            &&& l.render_orders.len() == l.source_indices.len()
            &&& l.masks.len() <= l.ordered_rows.len() <= s.drawables.len()
            &&& forall|a: int, b: int|
                0 <= a < b < l.masks.len() ==> #[trigger] l.masks[a] != #[trigger] l.masks[b]
            &&& forall|m: int|
                0 <= m < l.masks.len() ==> exists|q: int|
                    0 <= q < l.ordered_rows.len() && mask_key_of(facts, l.ordered_rows[q] as int) == Some(
                        #[trigger] l.masks[m],
                    )
            &&& forall|row: usize|
                row < l.source_indices.len() && (#[trigger] mask_key_of(facts, row as int)) is Some
                    ==> l.masks.contains(mask_key_of(facts, row as int)->0)
        }),
{
    let ds = s.drawables;
    let l = fresh_layout(s);
    let facts = row_facts(ds, l.source_indices);
    let rows = l.ordered_rows;
    lemma_resident_prefix(ds, ds.len());
    lemma_resident_len(ds, ds.len());
    lemma_render_order_rows_sorted(l.render_orders);
    lemma_mask_keys_upto(facts, rows, rows.len());
    assert forall|row: usize|
        row < l.source_indices.len() && (#[trigger] mask_key_of(facts, row as int)) is Some
            implies l.masks.contains(mask_key_of(facts, row as int)->0) by {
        assert(rows.contains(row));
        let q = choose|q: int| 0 <= q < rows.len() && rows[q] == row;
        assert(mask_key_of(facts, rows[q] as int) is Some);
    }
}

/// Where draw `k`'s mask group stands among the passes.
proof fn lemma_draw_mask(s: SnapshotView, src: Seq<usize>, k: int)
    requires
        s.drawables.len() <= usize::MAX,
        sources_of(s, src),
        0 <= k < src.len(),
    ensures
        ({
            let l = fresh_layout(s);
            let facts = row_facts(s.drawables, l.source_indices);
            let row = draw_rows(s)[k];
            &&& facts[row as int].drawn
            &&& facts[row as int].clipping == s.drawables[src[k] as int].clipping
            &&& planned(s).draws[k].mask == l.mask_refs[row as int]
            &&& mask_key_of(facts, row as int) is None ==> planned(s).draws[k].mask is None
            &&& mask_key_of(facts, row as int) is Some ==> {
                let key = mask_key_of(facts, row as int)->0;
                let pos = crate::layout::key_position(l.masks, key);
                &&& 0 <= pos < l.masks.len()
                &&& l.masks[pos] == key
                &&& planned(s).draws[k].mask == Some(MaskRef(pos as usize))
            }
        }),
{
    let ds = s.drawables;
    let l = fresh_layout(s);
    let facts = row_facts(ds, l.source_indices);
    let row = draw_rows(s)[k];
    assert(src[k] == l.source_indices[row as int]);
    assert(planned(s).draws[k] == row_command(ds, l, row as int));
    assert(should_draw(ds[src[k] as int]));
    lemma_plan_keys(s);
    assert(l.mask_refs == mask_refs(facts, l.ordered_rows));
    if mask_key_of(facts, row as int) is Some {
        let key = mask_key_of(facts, row as int)->0;
        assert(l.masks.contains(key));
        lemma_key_position(l.masks, key);
    }
}

proof fn lemma_clip_clause(s: SnapshotView, src: Seq<usize>, k: int)
    requires
        s.drawables.len() <= usize::MAX,
        sources_of(s, src),
        0 <= k < src.len(),
    ensures
        match s.drawables[src[k] as int].clipping {
            None => planned(s).draws[k].mask is None,
            Some(c) => if clip_mask_ids(s.drawables, c.drawable_ids).len() == 0 {
                planned(s).draws[k].mask is None
            } else {
                &&& planned(s).draws[k].mask is Some
                &&& pass_index(planned(s).draws[k].mask->0) < planned(s).masks.len()
                &&& planned(s).masks[pass_index(planned(s).draws[k].mask->0)].id == planned(
                    s,
                ).draws[k].mask->0
                &&& planned(s).masks[pass_index(planned(s).draws[k].mask->0)].drawable_ids
                    == clip_mask_ids(s.drawables, c.drawable_ids)
                &&& planned(s).masks[pass_index(planned(s).draws[k].mask->0)].inverted
                    == c.inverted
            },
        },
{
    let ds = s.drawables;
    let l = fresh_layout(s);
    lemma_draw_mask(s, src, k);
    lemma_plan_keys(s);
    assert(planned(s).masks == mask_passes_of(l.masks));
    let facts = row_facts(ds, l.source_indices);
    let row = draw_rows(s)[k];
    assert(l.source_indices == resident_rows(ds));
    match ds[src[k] as int].clipping {
        Some(c) => {
            lemma_resident_ids_filter(ds, c.drawable_ids);
            let ids = resident_ids_in(facts, c.drawable_ids);
            assert(ids == clip_mask_ids(ds, c.drawable_ids));
            if ids.len() > 0 {
                let key = MaskKey { drawable_ids: ids, inverted: c.inverted };
                assert(mask_key_of(facts, row as int) == Some(key));
                let pos = crate::layout::key_position(l.masks, key);
                assert(planned(s).draws[k].mask == Some(MaskRef(pos as usize)));
                assert(pass_index(MaskRef(pos as usize)) == pos);
                assert(planned(s).masks[pos].drawable_ids == l.masks[pos].drawable_ids);
            } else {
                assert(mask_key_of(facts, row as int) is None);
            }
        },
        None => {
            assert(mask_key_of(facts, row as int) is None);
        },
    }
}

proof fn lemma_pass_used(s: SnapshotView, src: Seq<usize>, m: int)
    requires
        s.drawables.len() <= usize::MAX,
        sources_of(s, src),
        0 <= m < planned(s).masks.len(),
    ensures
        exists|k: int| 0 <= k < planned(s).draws.len() && #[trigger] planned(s).draws[k].mask == Some(MaskRef(m as usize)),
{
    let ds = s.drawables;
    let l = fresh_layout(s);
    let res = l.source_indices;
    let rows = l.ordered_rows;
    let facts = row_facts(ds, res);
    let dr = draw_rows(s);
    lemma_plan_keys(s);
    assert(planned(s).masks == mask_passes_of(l.masks));
    let q = choose|q: int| 0 <= q < rows.len() && mask_key_of(facts, rows[q] as int) == Some(l.masks[m]);
    assert(facts[rows[q] as int].drawn);
    lemma_drawn_rows(ds, l, rows.len());
    assert(dr.contains(rows[q]));
    let k = choose|k: int| 0 <= k < dr.len() && dr[k] == rows[q];
    lemma_draw_mask(s, src, k);
    lemma_key_position(l.masks, l.masks[m]);
    let pos = crate::layout::key_position(l.masks, l.masks[m]);
    if pos < m {
        assert(l.masks[pos] != l.masks[m]);
    }
    assert(planned(s).draws[k].mask == Some(MaskRef(m as usize)));
}

/// Clipped draws are masked as their clips say; see `masks_follow_clips`.
pub proof fn law_draw_masks_follow_clips(s: SnapshotView)
    requires
        s.drawables.len() <= usize::MAX,
    ensures
        exists|src: Seq<usize>|
            draws_follow_drawables(s.drawables, planned(s).draws, src) && masks_follow_clips(
                s.drawables,
                planned(s),
                src,
            ),
{
    let ds = s.drawables;
    let l = fresh_layout(s);
    let plan = planned(s);
    let src = lemma_draw_sources(s);
    assert(sources_of(s, src));
    assert forall|k: int| 0 <= k < src.len() implies match ds[src[k] as int].clipping {
        None => (#[trigger] plan.draws[k]).mask is None,
        Some(c) => if clip_mask_ids(ds, c.drawable_ids).len() == 0 {
            plan.draws[k].mask is None
        } else {
            &&& plan.draws[k].mask is Some
            &&& pass_index(plan.draws[k].mask->0) < plan.masks.len()
            &&& plan.masks[pass_index(plan.draws[k].mask->0)].id == plan.draws[k].mask->0
            &&& plan.masks[pass_index(plan.draws[k].mask->0)].drawable_ids == clip_mask_ids(
                ds,
                c.drawable_ids,
            )
            &&& plan.masks[pass_index(plan.draws[k].mask->0)].inverted == c.inverted
        },
    } by {
        lemma_clip_clause(s, src, k);
    }
    assert forall|i: int, j: int|
        0 <= i < src.len() && 0 <= j < src.len() && ds[src[i] as int].clipping == ds[src[j] as int].clipping
            implies #[trigger] plan.draws[i].mask == #[trigger] plan.draws[j].mask by {
        lemma_draw_mask(s, src, i);
        lemma_draw_mask(s, src, j);
        let facts = row_facts(ds, l.source_indices);
        assert(mask_key_of(facts, draw_rows(s)[i] as int) == mask_key_of(facts, draw_rows(s)[j] as int));
    }
    lemma_plan_keys(s);
    assert(plan.masks == mask_passes_of(l.masks));
    assert forall|a: int, b: int|
        0 <= a < b < plan.masks.len() implies !(#[trigger] plan.masks[a].drawable_ids == #[trigger] plan.masks[b].drawable_ids
            && plan.masks[a].inverted == plan.masks[b].inverted) by {
        assert(l.masks[a] != l.masks[b]);
        if plan.masks[a].drawable_ids == plan.masks[b].drawable_ids && plan.masks[a].inverted
            == plan.masks[b].inverted {
            assert(l.masks[a] == l.masks[b]);
        }
    }
    assert forall|m: int| 0 <= m < plan.masks.len() implies (#[trigger] plan.masks[m]).id == MaskRef(m as usize) && exists|k: int|
        0 <= k < plan.draws.len() && #[trigger] plan.draws[k].mask == Some(MaskRef(m as usize)) by {
        lemma_pass_used(s, src, m);
    }
    assert(masks_follow_clips(ds, plan, src));
}

/// `res` lists the resident drawables (those whose geometry the plan packs) once each,
/// in snapshot order, and the model context packs their vertices and indices back to
/// back in that order, each drawable's ranges as long as its own geometry.
pub open spec fn model_packs(ds: Seq<DrawableView>, model: ModelCtxView, res: Seq<usize>) -> bool {
    let m = model.drawables;
    &&& res.len() == m.len()
    &&& forall|r: int|
        0 <= r < res.len() ==> {
            &&& res[r] < ds.len()
            &&& is_resident(ds, res[r] as int)
            &&& (#[trigger] m[r]).drawable_id == ds[res[r] as int].id
            &&& m[r].texture_index == ds[res[r] as int].texture_index
            &&& m[r].vertex_range.end - m[r].vertex_range.start == ds[res[r] as int].vertices.len()
            &&& m[r].index_range.end - m[r].index_range.start == ds[res[r] as int].indices.len()
        }
    &&& forall|a: int, b: int| 0 <= a < b < res.len() ==> res[a] < res[b]
    &&& forall|d: int| 0 <= d < ds.len() && is_resident(ds, d) ==> res.contains(d as usize)
    &&& m.len() > 0 ==> m[0].vertex_range.start == 0 && m[0].index_range.start == 0
    &&& forall|r: int|
        0 < r < m.len() ==> (#[trigger] m[r]).vertex_range.start == m[r - 1].vertex_range.end
            && m[r].index_range.start == m[r - 1].index_range.end
    &&& model.vertex_count == if m.len() == 0 {
        0
    } else {
        m.last().vertex_range.end
    }
    &&& model.index_count == if m.len() == 0 {
        0
    } else {
        m.last().index_range.end
    }
}

/// Each draw reads its drawable's packed ranges: draw `k` of drawable `src[k]` uses the
/// ranges of the model context's entry for that drawable.
pub open spec fn draws_use_packed_ranges(
    draws: Seq<DrawCommandView>,
    model: ModelCtxView,
    src: Seq<usize>,
    res: Seq<usize>,
) -> bool {
    forall|k: int|
        0 <= k < src.len() ==> exists|r: int|
            0 <= r < res.len() && res[r] == src[k] && (#[trigger] draws[k]).vertex_range
                == model.drawables[r].vertex_range && draws[k].index_range
                == model.drawables[r].index_range
}

proof fn lemma_model_packs(s: SnapshotView)
    requires
        s.drawables.len() <= usize::MAX,
        packing_fits(s),
    ensures
        model_packs(s.drawables, planned(s).model, resident_rows(s.drawables)),
{
    let ds = s.drawables;
    let l = fresh_layout(s);
    let res = l.source_indices;
    let model = planned(s).model;
    lemma_resident_prefix(ds, ds.len());
    assert(res == resident_rows(ds));
    assert(model == model_of(ds, l));
    let n = res.len();
    let m = model.drawables;
    assert forall|r: int| 0 <= r < n implies {
        &&& res[r] < ds.len()
        &&& is_resident(ds, res[r] as int)
        &&& (#[trigger] m[r]).drawable_id == ds[res[r] as int].id
        &&& m[r].texture_index == ds[res[r] as int].texture_index
        &&& m[r].vertex_range.end - m[r].vertex_range.start == ds[res[r] as int].vertices.len()
        &&& m[r].index_range.end - m[r].index_range.start == ds[res[r] as int].indices.len()
    } by {
        lemma_totals_monotone(ds, res, (r + 1) as nat, n);
    }
    assert forall|r: int| 0 < r < m.len() implies (#[trigger] m[r]).vertex_range.start == m[r
        - 1].vertex_range.end && m[r].index_range.start == m[r - 1].index_range.end by {
        lemma_totals_monotone(ds, res, r as nat, n);
    }
    if n > 0 {
        lemma_totals_monotone(ds, res, n, n);
    }
}

/// Where the packed geometry fits 32-bit offsets, the model context packs each resident
/// drawable once, back to back in snapshot order, and every main-pass draw reads its
/// drawable's packed ranges.
pub proof fn law_drawables_packed_once(s: SnapshotView)
    requires
        s.drawables.len() <= usize::MAX,
        packing_fits(s),
    ensures
        exists|src: Seq<usize>, res: Seq<usize>|
            {
                &&& draws_follow_drawables(s.drawables, planned(s).draws, src)
                &&& model_packs(s.drawables, planned(s).model, res)
                &&& draws_use_packed_ranges(planned(s).draws, planned(s).model, src, res)
            },
{
    let ds = s.drawables;
    let l = fresh_layout(s);
    let res = l.source_indices;
    let model = planned(s).model;
    let src = lemma_draw_sources(s);
    lemma_model_packs(s);
    assert(res == resident_rows(ds));
    assert(model == model_of(ds, l));
    let draws = planned(s).draws;
    assert forall|k: int| 0 <= k < src.len() implies exists|r: int|
        0 <= r < res.len() && res[r] == src[k] && (#[trigger] draws[k]).vertex_range
            == model.drawables[r].vertex_range && draws[k].index_range
            == model.drawables[r].index_range by {
        let row = draw_rows(s)[k];
        assert(src[k] == res[row as int]);
        assert(draws[k] == row_command(ds, l, row as int));
    }
    assert(draws_use_packed_ranges(draws, model, src, res));
}

/// Some mask pass draws the drawable with this id.
pub open spec fn passes_name(masks: Seq<MaskPassView>, id: Seq<char>) -> bool {
    exists|m: int| 0 <= m < masks.len() && #[trigger] masks[m].drawable_ids.contains(id)
}

/// `msrc` names, for each mask draw, the snapshot drawable it draws: every resident
/// drawable that some mask pass names appears once, in snapshot order, whether or not
/// the main pass draws it.
pub open spec fn mask_draws_follow_passes(
    ds: Seq<DrawableView>,
    plan: RenderPlanView,
    msrc: Seq<usize>,
) -> bool {
    &&& msrc.len() == plan.mask_draws.len()
    &&& forall|i: int|
        0 <= i < msrc.len() ==> {
            &&& msrc[i] < ds.len()
            &&& is_resident(ds, msrc[i] as int)
            &&& passes_name(plan.masks, ds[msrc[i] as int].id)
            &&& draw_of_drawable(#[trigger] plan.mask_draws[i], ds[msrc[i] as int])
        }
    &&& forall|a: int, b: int| 0 <= a < b < msrc.len() ==> msrc[a] < msrc[b]
    &&& forall|d: int|
        0 <= d < ds.len() && is_resident(ds, d) && passes_name(plan.masks, (#[trigger] ds[d]).id)
            ==> msrc.contains(d as usize)
}

proof fn lemma_mask_draw_rows(ds: Seq<DrawableView>, l: PlanLayout, n: nat)
    requires
        n <= l.source_indices.len(),
        l.source_indices.len() <= usize::MAX,
    ensures
        forall|i: int|
            #![trigger mask_draw_rows(ds, l, n)[i]]
            0 <= i < mask_draw_rows(ds, l, n).len() ==> {
                &&& mask_draw_rows(ds, l, n)[i] < n
                &&& masks_name(l.masks, ds[l.source_indices[mask_draw_rows(ds, l, n)[i] as int] as int].id)
            },
        forall|a: int, b: int|
            0 <= a < b < mask_draw_rows(ds, l, n).len() ==> mask_draw_rows(ds, l, n)[a] < mask_draw_rows(
                ds,
                l,
                n,
            )[b],
        forall|r: int|
            0 <= r < n && masks_name(l.masks, ds[#[trigger] l.source_indices[r] as int].id)
                ==> mask_draw_rows(ds, l, n).contains(r as usize),
    decreases n,
{
    if n > 0 {
        lemma_mask_draw_rows(ds, l, (n - 1) as nat);
        let p = mask_draw_rows(ds, l, (n - 1) as nat);
        let q = mask_draw_rows(ds, l, n);
        if masks_name(l.masks, ds[l.source_indices[n - 1] as int].id) {
            assert(q == p.push((n - 1) as usize));
            assert forall|i: int| #![trigger q[i]] 0 <= i < q.len() implies {
                &&& q[i] < n
                &&& masks_name(l.masks, ds[l.source_indices[q[i] as int] as int].id)
            } by {
                if i < p.len() {
                    assert(q[i] == p[i]);
                }
            }
            assert forall|a: int, b: int| 0 <= a < b < q.len() implies q[a] < q[b] by {
                assert(q[a] == p[a]);
                if b < p.len() {
                    assert(q[b] == p[b]);
                }
            }
            assert forall|r: int|
                0 <= r < n && masks_name(l.masks, ds[#[trigger] l.source_indices[r] as int].id)
                    implies q.contains(r as usize) by {
                if r < n - 1 {
                    assert(p.contains(r as usize));
                    let i = choose|i: int| 0 <= i < p.len() && p[i] == r as usize;
                    assert(q[i] == r as usize);
                } else {
                    assert(q[p.len() as int] == r as usize);
                }
            }
        } else {
            assert(q == p);
        }
    }
}

/// The mask draws draw each resident drawable that some mask pass names, once and in
/// snapshot order, also where the main pass does not draw it (a transparent mask
/// source); each carries its drawable's id, texture, opacity, blend mode and mask
/// inversion, and reads its drawable's packed ranges.
pub proof fn law_mask_draws_follow_passes(s: SnapshotView)
    requires
        s.drawables.len() <= usize::MAX,
    ensures
        exists|msrc: Seq<usize>| mask_draws_follow_passes(s.drawables, planned(s), msrc),
{
    let ds = s.drawables;
    let l = fresh_layout(s);
    let res = l.source_indices;
    let plan = planned(s);
    lemma_resident_prefix(ds, ds.len());
    lemma_resident_len(ds, ds.len());
    assert(res == resident_rows(ds));
    lemma_mask_draw_rows(ds, l, res.len());
    let mr = mask_draw_rows(ds, l, res.len());
    assert(plan.mask_draws == mask_draws_of(ds, l));
    assert(plan.masks == mask_passes_of(l.masks));
    let msrc = Seq::new(mr.len(), |i: int| res[mr[i] as int]);
    assert forall|id: Seq<char>| masks_name(l.masks, id) == passes_name(plan.masks, id) by {
        if masks_name(l.masks, id) {
            let m = choose|m: int| 0 <= m < l.masks.len() && #[trigger] l.masks[m].drawable_ids.contains(id);
            assert(plan.masks[m].drawable_ids == l.masks[m].drawable_ids);
        }
        if passes_name(plan.masks, id) {
            let m = choose|m: int| 0 <= m < plan.masks.len() && #[trigger] plan.masks[m].drawable_ids.contains(id);
            assert(plan.masks[m].drawable_ids == l.masks[m].drawable_ids);
        }
    }
    assert forall|i: int| 0 <= i < msrc.len() implies {
        &&& msrc[i] < ds.len()
        &&& is_resident(ds, msrc[i] as int)
        &&& passes_name(plan.masks, ds[msrc[i] as int].id)
        &&& draw_of_drawable(#[trigger] plan.mask_draws[i], ds[msrc[i] as int])
    } by {
        assert(mr[i] < res.len());
        assert(plan.mask_draws[i] == row_command(ds, l, mr[i] as int));
    }
    assert forall|d: int|
        0 <= d < ds.len() && is_resident(ds, d) && passes_name(plan.masks, (#[trigger] ds[d]).id)
            implies msrc.contains(d as usize) by {
        let r = choose|r: int| 0 <= r < res.len() && res[r] == d as usize;
        assert(masks_name(l.masks, ds[res[r] as int].id));
        assert(mr.contains(r as usize));
        let i = choose|i: int| 0 <= i < mr.len() && mr[i] == r as usize;
        assert(msrc[i] == d as usize);
    }
    assert(mask_draws_follow_passes(ds, plan, msrc));
}

/// A call that belongs to the clip-mask phase of a dispatch.
pub open spec fn is_mask_phase_call(c: BackendCall) -> bool {
    match c {
        BackendCall::BeginClipMasks
        | BackendCall::BeginClipMask { .. }
        | BackendCall::DrawMaskDrawable { .. }
        | BackendCall::EndClipMask { .. }
        | BackendCall::EndClipMasks => true,
        _ => false,
    }
}

/// A mask-pass call points at a mask pass, and a mask-draw call also at a mask draw of
/// one of the drawables that pass names.
pub open spec fn mask_call_valid(p: RenderPlanView, c: BackendCall) -> bool {
    match c {
        BackendCall::BeginClipMask { mask } => mask < p.masks.len(),
        BackendCall::EndClipMask { mask } => mask < p.masks.len(),
        BackendCall::DrawMaskDrawable { mask, draw } => {
            &&& mask < p.masks.len()
            &&& draw < p.mask_draws.len()
            &&& p.masks[mask as int].drawable_ids.contains(p.mask_draws[draw as int].drawable_id)
        },
        _ => true,
    }
}

proof fn lemma_find_draw(draws: Seq<DrawCommandView>, id: Seq<char>, last: bool, n: nat)
    requires
        n <= draws.len(),
        draws.len() <= usize::MAX,
    ensures
        find_draw(draws, id, last, n) matches Some(d) ==> d < n && draws[d as int].drawable_id == id,
    decreases n,
{
    if n > 0 {
        lemma_find_draw(draws, id, last, (n - 1) as nat);
    }
}

proof fn lemma_mask_id_calls(p: RenderPlanView, i: int, k: nat)
    requires
        0 <= i < p.masks.len(),
        i <= usize::MAX,
        p.mask_draws.len() <= usize::MAX,
        k <= p.masks[i].drawable_ids.len(),
    ensures
        forall|t: int|
            0 <= t < mask_id_calls(p, i, k).len() ==> is_mask_phase_call(
                #[trigger] mask_id_calls(p, i, k)[t],
            ) && mask_call_valid(p, mask_id_calls(p, i, k)[t]),
    decreases k,
{
    if k > 0 {
        lemma_mask_id_calls(p, i, (k - 1) as nat);
        let id = p.masks[i].drawable_ids[k - 1];
        lemma_find_draw(p.mask_draws, id, crate::dispatch::lookup_uses_table(p), p.mask_draws.len());
        let earlier = mask_id_calls(p, i, (k - 1) as nat);
        let now = mask_id_calls(p, i, k);
        match find_draw(p.mask_draws, id, crate::dispatch::lookup_uses_table(p), p.mask_draws.len()) {
            Some(d) => {
                assert(now == earlier.push(BackendCall::DrawMaskDrawable { mask: i as usize, draw: d }));
                assert(p.masks[i].drawable_ids[k - 1] == id);
                assert forall|t: int| 0 <= t < now.len() implies is_mask_phase_call(#[trigger] now[t])
                    && mask_call_valid(p, now[t]) by {
                    if t < earlier.len() {
                        assert(now[t] == earlier[t]);
                    }
                }
            },
            None => {},
        }
    }
}

proof fn lemma_mask_pass_calls(p: RenderPlanView, n: nat)
    requires
        n <= p.masks.len(),
        p.masks.len() <= usize::MAX,
        p.mask_draws.len() <= usize::MAX,
    ensures
        forall|t: int|
            0 <= t < mask_pass_calls(p, n).len() ==> is_mask_phase_call(
                #[trigger] mask_pass_calls(p, n)[t],
            ) && mask_call_valid(p, mask_pass_calls(p, n)[t]),
    decreases n,
{
    if n > 0 {
        let i = n - 1;
        lemma_mask_pass_calls(p, (n - 1) as nat);
        lemma_mask_id_calls(p, i, p.masks[i].drawable_ids.len());
        let a = mask_pass_calls(p, (n - 1) as nat).push(BackendCall::BeginClipMask { mask: i as usize });
        let b = mask_id_calls(p, i, p.masks[i].drawable_ids.len()).push(
            BackendCall::EndClipMask { mask: i as usize },
        );
        let all = mask_pass_calls(p, n);
        assert(all == a + b);
        assert forall|t: int| 0 <= t < all.len() implies is_mask_phase_call(#[trigger] all[t])
            && mask_call_valid(p, all[t]) by {
            if t < a.len() {
                assert(all[t] == a[t]);
                if t < a.len() - 1 {
                    assert(a[t] == mask_pass_calls(p, (n - 1) as nat)[t]);
                }
            } else {
                assert(all[t] == b[t - a.len()]);
                if t - a.len() < b.len() - 1 {
                    assert(b[t - a.len()] == mask_id_calls(p, i, p.masks[i].drawable_ids.len())[t
                        - a.len()]);
                }
            }
        }
    }
}

/// Dispatching a plan opens the model, draws every clip mask before the main pass
/// begins, then draws each main-pass draw once in plan order, and closes the model;
/// every mask-draw call draws, into a mask pass, one of the drawables that pass names.
pub proof fn law_clip_masks_before_main_pass(p: RenderPlanView)
    requires
        p.masks.len() <= usize::MAX,
        p.mask_draws.len() <= usize::MAX,
    ensures
        ({
            let calls = dispatch_calls_of(p);
            &&& forall|t: int| 0 <= t < calls.len() ==> mask_call_valid(p, #[trigger] calls[t])
            &&& exists|b: int|
                #![trigger calls[b]]
                {
                    &&& 0 < b < calls.len()
                    &&& calls[b] == BackendCall::BeginMainPass
                    &&& calls[0] == BackendCall::BeginModel
                    &&& calls.len() == b + p.draws.len() + 2
                    &&& calls.last() == BackendCall::EndModel
                    &&& forall|t: int| 0 < t < b ==> is_mask_phase_call(#[trigger] calls[t])
                    &&& forall|d: int|
                        0 <= d < p.draws.len() ==> #[trigger] calls[b + 1 + d]
                            == BackendCall::DrawDrawable { draw: d as usize }
                    &&& (p.masks.len() == 0) == (b == 1)
                }
        }),
{
    let calls = dispatch_calls_of(p);
    lemma_mask_pass_calls(p, p.masks.len());
    let masks = if p.masks.len() == 0 {
        Seq::empty()
    } else {
        seq![BackendCall::BeginClipMasks] + mask_pass_calls(p, p.masks.len()).push(
            BackendCall::EndClipMasks,
        )
    };
    let mains = Seq::new(p.draws.len(), |d: int| BackendCall::DrawDrawable { draw: d as usize });
    let head = seq![BackendCall::BeginModel] + masks;
    assert(calls == head + seq![BackendCall::BeginMainPass] + mains.push(BackendCall::EndModel));
    let b = head.len() as int;
    assert forall|t: int| 0 <= t < masks.len() implies is_mask_phase_call(#[trigger] masks[t])
        && mask_call_valid(p, masks[t]) by {
        if p.masks.len() > 0 {
            let inner = mask_pass_calls(p, p.masks.len());
            if t > 0 && t < masks.len() - 1 {
                assert(masks[t] == inner[t - 1]);
            }
        }
    }
    assert forall|t: int| 0 < t < b implies is_mask_phase_call(#[trigger] calls[t]) by {
        assert(calls[t] == head[t]);
        assert(head[t] == masks[t - 1]);
    }
    assert forall|d: int| 0 <= d < p.draws.len() implies #[trigger] calls[b + 1 + d]
        == BackendCall::DrawDrawable { draw: d as usize } by {
        assert(calls[b + 1 + d] == mains[d]);
    }
    assert forall|t: int| 0 <= t < calls.len() implies mask_call_valid(p, #[trigger] calls[t]) by {
        if 0 < t < b {
            assert(calls[t] == masks[t - 1]);
        } else if t > b && t < calls.len() - 1 {
            assert(calls[t] == mains[t - b - 1]);
        }
    }
    assert(calls[b] == BackendCall::BeginMainPass);
}

/// Every call that dispatching a plan makes points into the plan.
pub proof fn lemma_dispatch_calls_in_range(p: RenderPlanView)
    requires
        p.masks.len() <= usize::MAX,
        p.mask_draws.len() <= usize::MAX,
    ensures
        forall|t: int|
            0 <= t < dispatch_calls_of(p).len() ==> call_in_range(p, #[trigger] dispatch_calls_of(p)[t]),
{
    law_clip_masks_before_main_pass(p);
    let calls = dispatch_calls_of(p);
    let b = choose|b: int|
        #![trigger calls[b]]
        {
            &&& 0 < b < calls.len()
            &&& calls[b] == BackendCall::BeginMainPass
            &&& calls[0] == BackendCall::BeginModel
            &&& calls.len() == b + p.draws.len() + 2
            &&& calls.last() == BackendCall::EndModel
            &&& forall|t: int| 0 < t < b ==> is_mask_phase_call(#[trigger] calls[t])
            &&& forall|d: int|
                0 <= d < p.draws.len() ==> #[trigger] calls[b + 1 + d]
                    == BackendCall::DrawDrawable { draw: d as usize }
            &&& (p.masks.len() == 0) == (b == 1)
        };
    assert forall|t: int| 0 <= t < calls.len() implies call_in_range(p, #[trigger] calls[t]) by {
        assert(mask_call_valid(p, calls[t]));
        if b < t < calls.len() - 1 {
            assert(calls[b + 1 + (t - b - 1)] == BackendCall::DrawDrawable { draw: (t - b - 1) as usize });
        }
    }
}

} // verus!
