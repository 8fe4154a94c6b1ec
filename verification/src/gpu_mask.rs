use crate::dispatch::{find_draw, find_draw_exec, lookup_uses_table, mask_id_total, plan_uses_lookup_table};
use crate::gpu::{mix_u64, mixed_all, PositionUpload};
use crate::gpu_scene::TOPOLOGY_SEED;
use crate::plan::DrawCommandView;
use crate::plan::{RenderPlan, RenderPlanView};
use std::ops::Range;
use vstd::prelude::*;

verus! {

/// How the mask atlas is divided into slots.
#[derive(Debug, Clone, Copy, PartialEq, Eq, Structural)]
pub struct MaskAtlasLayout {
    pub width: u32,
    pub height: u32,
    pub slot_width: u32,
    pub slot_height: u32,
    pub columns: usize,
    pub rows: usize,
    pub slots: usize,
}

/// How good a mask atlas layout is: by slot area, then by its shorter slot side, then
/// by fewer rows.
#[derive(Debug, Clone, Copy, PartialEq, Eq, Structural)]
pub struct MaskLayoutScore {
    pub slot_area: u64,
    pub shorter_side: u32,
    pub rows: usize,
}

/// The score of a layout.
pub fn mask_layout_score(layout: MaskAtlasLayout) -> (r: MaskLayoutScore)
    ensures
        r == mask_layout_score_of(layout),
        r.slot_area == layout.slot_width * layout.slot_height,
{
    assert(layout.slot_width * layout.slot_height <= u64::MAX) by (nonlinear_arith)
        requires
            layout.slot_width <= u32::MAX,
            layout.slot_height <= u32::MAX,
    ;
    MaskLayoutScore {
        slot_area: layout.slot_width as u64 * layout.slot_height as u64,
        shorter_side: if layout.slot_width <= layout.slot_height {
            layout.slot_width
        } else {
            layout.slot_height
        },
        rows: layout.rows,
    }
}

/// Whether score `a` is better than score `b`: a larger slot area, or the same area
/// and a longer shorter side, or both the same and fewer rows.
pub open spec fn score_better(a: MaskLayoutScore, b: MaskLayoutScore) -> bool {
    ||| a.slot_area > b.slot_area
    ||| a.slot_area == b.slot_area && a.shorter_side > b.shorter_side
    ||| a.slot_area == b.slot_area && a.shorter_side == b.shorter_side && a.rows < b.rows
}

/// Whether the candidate layout scores better than the current one.
pub fn mask_layout_better(candidate: MaskAtlasLayout, current: MaskAtlasLayout) -> (r: bool)
    ensures
        r == score_better(mask_layout_score_of(candidate), mask_layout_score_of(current)),
{
    let a = mask_layout_score(candidate);
    let b = mask_layout_score(current);
    a.slot_area > b.slot_area || (a.slot_area == b.slot_area && (a.shorter_side > b.shorter_side
        || (a.shorter_side == b.shorter_side && a.rows < b.rows)))
}

/// The score of a layout.
pub open spec fn mask_layout_score_of(layout: MaskAtlasLayout) -> MaskLayoutScore {
    MaskLayoutScore {
        slot_area: (layout.slot_width * layout.slot_height) as u64,
        shorter_side: if layout.slot_width <= layout.slot_height {
            layout.slot_width
        } else {
            layout.slot_height
        },
        rows: layout.rows,
    }
}

/// Whether the mask atlas must be made anew for a layout: there is none, or it differs
/// in size, slot size, columns or slot count.
pub fn mask_atlas_needs_rebuild(mask_atlas: Option<MaskAtlasLayout>, layout: MaskAtlasLayout) -> (r: bool)
    ensures
        r == match mask_atlas {
            None => true,
            Some(atlas) => atlas.width != layout.width || atlas.height != layout.height || atlas.slot_width
                != layout.slot_width || atlas.slot_height != layout.slot_height || atlas.columns != layout.columns
                || atlas.slots != layout.slots,
        },
{
    match mask_atlas {
        None => true,
        Some(atlas) => atlas.width != layout.width || atlas.height != layout.height || atlas.slot_width
            != layout.slot_width || atlas.slot_height != layout.slot_height || atlas.columns != layout.columns
            || atlas.slots != layout.slots,
    }
}

/// Number of the first `k` ids of mask pass `i` that have a mask draw.
pub open spec fn found_ids(p: RenderPlanView, i: int, k: nat) -> nat
    decreases k,
{
    if k == 0 {
        0
    } else {
        found_ids(p, i, (k - 1) as nat) + if find_draw(
            p.mask_draws,
            p.masks[i].drawable_ids[k - 1],
            lookup_uses_table(p),
            p.mask_draws.len(),
        ) is Some {
            1nat
        } else {
            0nat
        }
    }
}

/// Number of mask draws over the first `n` mask passes.
pub open spec fn mask_draw_total(p: RenderPlanView, n: nat) -> nat
    decreases n,
{
    if n == 0 {
        0
    } else {
        mask_draw_total(p, (n - 1) as nat) + found_ids(p, n - 1, p.masks[n - 1].drawable_ids.len())
    }
}

proof fn lemma_found_ids_bound(p: RenderPlanView, i: int, k: nat)
    ensures
        found_ids(p, i, k) <= k,
    decreases k,
{
    if k > 0 {
        lemma_found_ids_bound(p, i, (k - 1) as nat);
    }
}

proof fn lemma_mask_draw_total_bound(p: RenderPlanView, n: nat)
    requires
        n <= p.masks.len(),
    ensures
        mask_draw_total(p, n) <= mask_id_total(p.masks, n),
    decreases n,
{
    if n > 0 {
        lemma_mask_draw_total_bound(p, (n - 1) as nat);
        lemma_found_ids_bound(p, n - 1, p.masks[n - 1].drawable_ids.len());
    }
}

proof fn lemma_mask_id_total_monotone_upto(p: RenderPlanView, a: nat, b: nat)
    requires
        a <= b,
    ensures
        mask_id_total(p.masks, a) <= mask_id_total(p.masks, b),
    decreases b,
{
    if a < b {
        lemma_mask_id_total_monotone_upto(p, a, (b - 1) as nat);
    }
}

/// Number of mask drawables that have a mask draw, over all mask passes: the draws of
/// the mask atlas, and its uniform slots.
pub fn mask_draw_call_count(render_plan: &RenderPlan) -> (r: usize)
    requires
        mask_id_total(render_plan@.masks, render_plan@.masks.len()) <= usize::MAX,
    ensures
        r == mask_draw_total(render_plan@, render_plan@.masks.len()),
{
    let ghost p = render_plan@;
    let use_table = plan_uses_lookup_table(render_plan);
    let mut total: usize = 0;
    let mut i: usize = 0;
    while i < render_plan.masks.len()
        invariant
            i <= render_plan.masks@.len(),
            p == render_plan@,
            p.masks.len() == render_plan.masks@.len(),
            use_table == lookup_uses_table(p),
            mask_id_total(p.masks, p.masks.len()) <= usize::MAX,
            total == mask_draw_total(p, i as nat),
        decreases render_plan.masks@.len() - i,
    {
        let mask = &render_plan.masks[i];
        assert(p.masks[i as int] == mask@);
        proof {
            lemma_mask_draw_total_bound(p, (i + 1) as nat);
            lemma_mask_id_total_monotone_upto(p, (i + 1) as nat, p.masks.len());
        }
        let mut k: usize = 0;
        let mut found: usize = 0;
        while k < mask.drawable_ids.len()
            invariant
                k <= mask.drawable_ids@.len(),
                p == render_plan@,
                p.masks[i as int] == mask@,
                use_table == lookup_uses_table(p),
                found == found_ids(p, i as int, k as nat),
            decreases mask.drawable_ids@.len() - k,
        {
            proof {
                lemma_found_ids_bound(p, i as int, k as nat);
            }
            assert(p.masks[i as int].drawable_ids[k as int] == mask.drawable_ids@[k as int]@);
            if find_draw_exec(&render_plan.mask_draws, &mask.drawable_ids[k], use_table).is_some() {
                found = found + 1;
            }
            k = k + 1;
        }
        total = total + found;
        i = i + 1;
    }
    total
}

/// Uniform slots that the mask writer needs: one per mask draw.
pub fn mask_uniform_slots(render_plan: &RenderPlan) -> (r: usize)
    requires
        mask_id_total(render_plan@.masks, render_plan@.masks.len()) <= usize::MAX,
    ensures
        r == mask_draw_total(render_plan@, render_plan@.masks.len()),
{
    mask_draw_call_count(render_plan)
}

/// Uniform slots of a frame: one per main draw and one per mask draw.
pub fn uniform_slots(render_plan: &RenderPlan) -> (r: usize)
    requires
        mask_id_total(render_plan@.masks, render_plan@.masks.len()) <= usize::MAX,
        render_plan@.draws.len() + mask_draw_total(render_plan@, render_plan@.masks.len()) <= usize::MAX,
    ensures
        r == render_plan@.draws.len() + mask_draw_total(render_plan@, render_plan@.masks.len()),
{
    render_plan.draws.len() + mask_draw_call_count(render_plan)
}

proof fn lemma_find_draw_bound(draws: Seq<crate::plan::DrawCommandView>, id: Seq<char>, last: bool, n: nat)
    ensures
        find_draw(draws, id, last, n) matches Some(j) ==> j < n,
    decreases n,
{
    if n > 0 {
        lemma_find_draw_bound(draws, id, last, (n - 1) as nat);
    }
}

/// Whether two vertex ranges share a vertex.
pub open spec fn ranges_overlap(a: Range<u32>, b: Range<u32>) -> bool {
    a.start < b.end && b.start < a.end
}

/// Whether mask drawable `k` of mask pass `i` has a mask draw that one of the uploads
/// overlaps.
pub open spec fn mask_id_touched(uploads: Seq<PositionUpload>, p: RenderPlanView, i: int, k: int) -> bool {
    match find_draw(p.mask_draws, p.masks[i].drawable_ids[k], lookup_uses_table(p), p.mask_draws.len()) {
        Some(d) => exists|u: int| 0 <= u < uploads.len() && #[trigger] ranges_overlap(uploads[u].vertex_range, p.mask_draws[d as int].vertex_range),
        None => false,
    }
}

/// Whether new positions reach a vertex that some mask draws.
pub open spec fn uploads_touch_masks(uploads: Seq<PositionUpload>, p: RenderPlanView) -> bool {
    &&& uploads.len() > 0
    &&& p.masks.len() > 0
    &&& exists|i: int, k: int|
        0 <= i < p.masks.len() && 0 <= k < p.masks[i].drawable_ids.len() && #[trigger] mask_id_touched(uploads, p, i, k)
}

fn upload_overlaps(uploads: &[PositionUpload], range: &Range<u32>) -> (r: bool)
    ensures
        r == exists|u: int| 0 <= u < uploads@.len() && #[trigger] ranges_overlap(uploads@[u].vertex_range, *range),
{
    let mut u: usize = 0;
    while u < uploads.len()
        invariant
            u <= uploads@.len(),
            forall|v: int| 0 <= v < u ==> !#[trigger] ranges_overlap(uploads@[v].vertex_range, *range),
        decreases uploads@.len() - u,
    {
        let upload = &uploads[u];
        if upload.vertex_range.start < range.end && range.start < upload.vertex_range.end {
            assert(ranges_overlap(uploads@[u as int].vertex_range, *range));
            return true;
        }
        u = u + 1;
    }
    false
}

/// Whether position uploads change a vertex that a mask draws, so that the mask atlas
/// must be redrawn.
pub fn position_uploads_touch_masks(uploads: &[PositionUpload], render_plan: &RenderPlan) -> (r: bool)
    requires
        mask_id_total(render_plan@.masks, render_plan@.masks.len()) <= usize::MAX,
    ensures
        r == uploads_touch_masks(uploads@, render_plan@),
{
    let ghost p = render_plan@;
    if uploads.len() == 0 || render_plan.masks.len() == 0 {
        return false;
    }
    let use_table = plan_uses_lookup_table(render_plan);
    let mut i: usize = 0;
    while i < render_plan.masks.len()
        invariant
            i <= render_plan.masks@.len(),
            p == render_plan@,
            p.masks.len() == render_plan.masks@.len(),
            use_table == lookup_uses_table(p),
            uploads@.len() > 0,
            p.masks.len() > 0,
            forall|a: int, k: int|
                0 <= a < i && 0 <= k < p.masks[a].drawable_ids.len() ==> !#[trigger] mask_id_touched(uploads@, p, a, k),
        decreases render_plan.masks@.len() - i,
    {
        let mask = &render_plan.masks[i];
        assert(p.masks[i as int] == mask@);
        let mut k: usize = 0;
        while k < mask.drawable_ids.len()
            invariant
                k <= mask.drawable_ids@.len(),
                p == render_plan@,
                p.masks[i as int] == mask@,
                use_table == lookup_uses_table(p),
                uploads@.len() > 0,
                p.masks.len() > 0,
                i < p.masks.len(),
                forall|a: int, k2: int|
                    0 <= a < i && 0 <= k2 < p.masks[a].drawable_ids.len() ==> !#[trigger] mask_id_touched(uploads@, p, a, k2),
                forall|k2: int| 0 <= k2 < k ==> !#[trigger] mask_id_touched(uploads@, p, i as int, k2),
            decreases mask.drawable_ids@.len() - k,
        {
            assert(p.masks[i as int].drawable_ids[k as int] == mask.drawable_ids@[k as int]@);
            match find_draw_exec(&render_plan.mask_draws, &mask.drawable_ids[k], use_table) {
                Some(d) => {
                    proof {
                        lemma_find_draw_bound(p.mask_draws, p.masks[i as int].drawable_ids[k as int], use_table, p.mask_draws.len());
                    }
                    assert(p.mask_draws[d as int] == render_plan.mask_draws@[d as int]@);
                    let range = &render_plan.mask_draws[d].vertex_range;
                    if upload_overlaps(uploads, range) {
                        proof {
                            assert(p.mask_draws == crate::plan::commands_view(render_plan.mask_draws@));
                            assert(find_draw(p.mask_draws, p.masks[i as int].drawable_ids[k as int], lookup_uses_table(p), p.mask_draws.len()) == Some(d));
                            assert(*range == p.mask_draws[d as int].vertex_range);
                            let u = choose|u: int| 0 <= u < uploads@.len() && #[trigger] ranges_overlap(uploads@[u].vertex_range, *range);
                            assert(ranges_overlap(uploads@[u].vertex_range, p.mask_draws[d as int].vertex_range));
                            assert(mask_id_touched(uploads@, p, i as int, k as int));
                        }
                        return true;
                    }
                },
                None => {},
            }
            k = k + 1;
        }
        i = i + 1;
    }
    false
}

/// Whether any main draw of the plan uses an advanced blend mode.
pub fn render_plan_has_advanced_blend(render_plan: &RenderPlan) -> (r: bool)
    ensures
        r == exists|i: int| 0 <= i < render_plan@.draws.len() && #[trigger] render_plan@.draws[i].blend_mode is Advanced,
{
    let mut i: usize = 0;
    while i < render_plan.draws.len()
        invariant
            i <= render_plan.draws@.len(),
            render_plan@.draws.len() == render_plan.draws@.len(),
            forall|j: int| 0 <= j < i ==> !(#[trigger] render_plan@.draws[j].blend_mode is Advanced),
        decreases render_plan.draws@.len() - i,
    {
        assert(render_plan@.draws[i as int] == render_plan.draws@[i as int]@);
        match render_plan.draws[i].blend_mode {
            crate::model::BlendMode::Advanced { .. } => {
                assert(render_plan@.draws[i as int].blend_mode is Advanced);
                return true;
            },
            _ => {},
        }
        i = i + 1;
    }
    false
}

/// Bytes of a GPU buffer holding `len` elements of `element_size` bytes: never zero.
pub fn buffer_size(len: usize, element_size: usize) -> (r: u64)
    requires
        len * element_size <= usize::MAX,
    ensures
        r == if len * element_size == 0 { 1 } else { len * element_size },
{
    let bytes = len * element_size;
    if bytes == 0 {
        1
    } else {
        bytes as u64
    }
}

/// The values that one id of a mask pass adds to the mask atlas signature: a marker of
/// whether it has a mask draw, then that draw's texture and packed ranges.
pub open spec fn mask_id_values(draw: Option<DrawCommandView>) -> Seq<u64> {
    match draw {
        None => seq![0u64],
        Some(d) => seq![
            1u64,
            d.texture_index as u64,
            d.vertex_range.start as u64,
            d.vertex_range.end as u64,
            d.index_range.start as u64,
            d.index_range.end as u64,
        ],
    }
}

/// The mask draw that an id of a mask pass finds, as the mask lookups of dispatch find it.
pub open spec fn mask_draw_for(p: RenderPlanView, id: Seq<char>) -> Option<DrawCommandView> {
    match find_draw(p.mask_draws, id, lookup_uses_table(p), p.mask_draws.len()) {
        Some(d) => Some(p.mask_draws[d as int]),
        None => None,
    }
}

/// Signature values of the first `k` ids of mask pass `i`.
pub open spec fn mask_pass_id_values(p: RenderPlanView, i: int, k: nat) -> Seq<u64>
    decreases k,
{
    if k == 0 {
        Seq::empty()
    } else {
        mask_pass_id_values(p, i, (k - 1) as nat) + mask_id_values(
            mask_draw_for(p, p.masks[i].drawable_ids[k - 1]),
        )
    }
}

/// Signature values of the first `n` mask passes: each pass's index, its id count and
/// the values of its ids.
pub open spec fn mask_passes_values(p: RenderPlanView, n: nat) -> Seq<u64>
    decreases n,
{
    if n == 0 {
        Seq::empty()
    } else {
        mask_passes_values(p, (n - 1) as nat) + seq![
            (n - 1) as u64,
            p.masks[n - 1].drawable_ids.len() as u64,
        ] + mask_pass_id_values(p, n - 1, p.masks[n - 1].drawable_ids.len())
    }
}

/// Every value the mask atlas signature folds in, in order: the layout, the view
/// transform and canvas uniform (as single-precision bits), the pass count and the
/// passes.
pub open spec fn mask_signature_values(
    p: RenderPlanView,
    transform_bits: Seq<u32>,
    canvas_bits: Seq<u32>,
    layout: MaskAtlasLayout,
) -> Seq<u64> {
    seq![
        layout.width as u64,
        layout.height as u64,
        layout.slot_width as u64,
        layout.slot_height as u64,
        layout.columns as u64,
        layout.rows as u64,
        layout.slots as u64,
    ] + transform_bits.map_values(|b: u32| b as u64) + canvas_bits.map_values(|b: u32| b as u64)
        + seq![p.masks.len() as u64] + mask_passes_values(p, p.masks.len())
}

/// The signature of what the mask atlas draws.
pub open spec fn mask_signature_of(
    p: RenderPlanView,
    transform_bits: Seq<u32>,
    canvas_bits: Seq<u32>,
    layout: MaskAtlasLayout,
) -> u64 {
    mixed_all(TOPOLOGY_SEED, mask_signature_values(p, transform_bits, canvas_bits, layout))
}

/// Folds one more value into `signature`, where it stands for the fold of `values`.
fn mix_next(signature: &mut u64, value: u64, Ghost(values): Ghost<Seq<u64>>)
    requires
        *old(signature) == mixed_all(TOPOLOGY_SEED, values),
    ensures
        *final(signature) == mixed_all(TOPOLOGY_SEED, values.push(value)),
{
    mix_u64(signature, value);
    assert(values.push(value).drop_last() =~= values);
}

/// The signature of what the mask atlas draws: a change of layout, view transform,
/// canvas, mask passes, or of the texture or packed ranges of a mask draw changes it
/// (up to collisions); the mask draws' opacity and blend do not enter it.
pub fn mask_atlas_static_signature(
    render_plan: &RenderPlan,
    transform_bits: [u32; 4],
    canvas_bits: [u32; 4],
    layout: MaskAtlasLayout,
) -> (r: u64)
    requires
        mask_id_total(render_plan@.masks, render_plan@.masks.len()) <= usize::MAX,
    ensures
        r == mask_signature_of(render_plan@, transform_bits@, canvas_bits@, layout),
{
    let ghost p = render_plan@;
    let use_table = plan_uses_lookup_table(render_plan);
    let mut signature: u64 = TOPOLOGY_SEED;
    let ghost mut values: Seq<u64> = Seq::empty();
    mix_next(&mut signature, layout.width as u64, Ghost(values));
    proof { values = values.push(layout.width as u64); }
    mix_next(&mut signature, layout.height as u64, Ghost(values));
    proof { values = values.push(layout.height as u64); }
    mix_next(&mut signature, layout.slot_width as u64, Ghost(values));
    proof { values = values.push(layout.slot_width as u64); }
    mix_next(&mut signature, layout.slot_height as u64, Ghost(values));
    proof { values = values.push(layout.slot_height as u64); }
    mix_next(&mut signature, layout.columns as u64, Ghost(values));
    proof { values = values.push(layout.columns as u64); }
    mix_next(&mut signature, layout.rows as u64, Ghost(values));
    proof { values = values.push(layout.rows as u64); }
    mix_next(&mut signature, layout.slots as u64, Ghost(values));
    proof { values = values.push(layout.slots as u64); }
    let mut t: usize = 0;
    while t < 4
        invariant
            t <= 4,
            signature == mixed_all(TOPOLOGY_SEED, values),
            values == seq![
                layout.width as u64,
                layout.height as u64,
                layout.slot_width as u64,
                layout.slot_height as u64,
                layout.columns as u64,
                layout.rows as u64,
                layout.slots as u64,
            ] + transform_bits@.take(t as int).map_values(|b: u32| b as u64),
        decreases 4 - t,
    {
        mix_next(&mut signature, transform_bits[t] as u64, Ghost(values));
        proof {
            values = values.push(transform_bits[t as int] as u64);
            assert(transform_bits@.take(t + 1).map_values(|b: u32| b as u64) =~= transform_bits@.take(
                t as int,
            ).map_values(|b: u32| b as u64).push(transform_bits[t as int] as u64));
        }
        t = t + 1;
    }
    assert(transform_bits@.take(4) =~= transform_bits@);
    let ghost head = values;
    let mut t: usize = 0;
    while t < 4
        invariant
            t <= 4,
            signature == mixed_all(TOPOLOGY_SEED, values),
            values == head + canvas_bits@.take(t as int).map_values(|b: u32| b as u64),
        decreases 4 - t,
    {
        mix_next(&mut signature, canvas_bits[t] as u64, Ghost(values));
        proof {
            values = values.push(canvas_bits[t as int] as u64);
            assert(canvas_bits@.take(t + 1).map_values(|b: u32| b as u64) =~= canvas_bits@.take(
                t as int,
            ).map_values(|b: u32| b as u64).push(canvas_bits[t as int] as u64));
        }
        t = t + 1;
    }
    assert(canvas_bits@.take(4) =~= canvas_bits@);
    mix_next(&mut signature, render_plan.masks.len() as u64, Ghost(values));
    proof { values = values.push(render_plan.masks.len() as u64); }
    let ghost prefix = values;
    let mut i: usize = 0;
    while i < render_plan.masks.len()
        invariant
            i <= render_plan.masks@.len(),
            p == render_plan@,
            p.masks.len() == render_plan.masks@.len(),
            use_table == lookup_uses_table(p),
            signature == mixed_all(TOPOLOGY_SEED, values),
            values == prefix + mask_passes_values(p, i as nat),
        decreases render_plan.masks@.len() - i,
    {
        let mask = &render_plan.masks[i];
        assert(p.masks[i as int] == mask@);
        let ghost before = values;
        mix_next(&mut signature, i as u64, Ghost(values));
        proof { values = values.push(i as u64); }
        mix_next(&mut signature, mask.drawable_ids.len() as u64, Ghost(values));
        proof { values = values.push(mask.drawable_ids.len() as u64); }
        let ghost pass_head = values;
        let mut k: usize = 0;
        while k < mask.drawable_ids.len()
            invariant
                k <= mask.drawable_ids@.len(),
                p == render_plan@,
                p.masks[i as int] == mask@,
                i < p.masks.len(),
                use_table == lookup_uses_table(p),
                signature == mixed_all(TOPOLOGY_SEED, values),
                values == pass_head + mask_pass_id_values(p, i as int, k as nat),
            decreases mask.drawable_ids@.len() - k,
        {
            let ghost at_start = values;
            let ghost id = p.masks[i as int].drawable_ids[k as int];
            assert(id == mask.drawable_ids@[k as int]@);
            let found = find_draw_exec(&render_plan.mask_draws, &mask.drawable_ids[k], use_table);
            proof {
                lemma_find_draw_bound(p.mask_draws, id, use_table, p.mask_draws.len());
            }
            match found {
                Some(d) => {
                    let draw = &render_plan.mask_draws[d];
                    assert(p.mask_draws[d as int] == draw@);
                    mix_next(&mut signature, 1u64, Ghost(values));
                    proof { values = values.push(1u64); }
                    mix_next(&mut signature, draw.texture_index as u64, Ghost(values));
                    proof { values = values.push(draw.texture_index as u64); }
                    mix_next(&mut signature, draw.vertex_range.start as u64, Ghost(values));
                    proof { values = values.push(draw.vertex_range.start as u64); }
                    mix_next(&mut signature, draw.vertex_range.end as u64, Ghost(values));
                    proof { values = values.push(draw.vertex_range.end as u64); }
                    mix_next(&mut signature, draw.index_range.start as u64, Ghost(values));
                    proof { values = values.push(draw.index_range.start as u64); }
                    mix_next(&mut signature, draw.index_range.end as u64, Ghost(values));
                    proof {
                        values = values.push(draw.index_range.end as u64);
                        assert(mask_draw_for(p, id) == Some(draw@));
                        assert(values =~= at_start + mask_id_values(Some(draw@)));
                    }
                },
                None => {
                    mix_next(&mut signature, 0u64, Ghost(values));
                    proof {
                        values = values.push(0u64);
                        assert(mask_draw_for(p, id) is None);
                        assert(values =~= at_start + mask_id_values(None));
                    }
                },
            }
            proof {
                assert(values =~= pass_head + mask_pass_id_values(p, i as int, (k + 1) as nat));
            }
            k = k + 1;
        }
        proof {
            assert(values =~= prefix + mask_passes_values(p, (i + 1) as nat));
        }
        i = i + 1;
    }
    proof {
        assert(values =~= mask_signature_values(p, transform_bits@, canvas_bits@, layout));
    }
    signature
}

proof fn lemma_pass_id_values_agree(p: RenderPlanView, q: RenderPlanView, i: int, k: nat)
    requires
        0 <= i < p.masks.len(),
        p.masks == q.masks,
        lookup_uses_table(p) == lookup_uses_table(q),
        p.mask_draws.len() == q.mask_draws.len(),
        forall|d: int| 0 <= d < p.mask_draws.len() ==> mask_id_values(Some(#[trigger] p.mask_draws[d]))
            == mask_id_values(Some(q.mask_draws[d])) && p.mask_draws[d].drawable_id == q.mask_draws[d].drawable_id,
        k <= p.masks[i].drawable_ids.len(),
    ensures
        mask_pass_id_values(p, i, k) == mask_pass_id_values(q, i, k),
    decreases k,
{
    if k > 0 {
        lemma_pass_id_values_agree(p, q, i, (k - 1) as nat);
        let id = p.masks[i].drawable_ids[k - 1];
        lemma_find_draw_agree(p.mask_draws, q.mask_draws, id, lookup_uses_table(p), p.mask_draws.len());
        lemma_find_draw_bound(p.mask_draws, id, lookup_uses_table(p), p.mask_draws.len());
        match find_draw(p.mask_draws, id, lookup_uses_table(p), p.mask_draws.len()) {
            Some(d) => {
                assert(mask_id_values(Some(p.mask_draws[d as int])) == mask_id_values(Some(q.mask_draws[d as int])));
            },
            None => {},
        }
    }
}

proof fn lemma_find_draw_agree(a: Seq<DrawCommandView>, b: Seq<DrawCommandView>, id: Seq<char>, last: bool, n: nat)
    requires
        n <= a.len(),
        a.len() == b.len(),
        forall|d: int| 0 <= d < a.len() ==> (#[trigger] a[d]).drawable_id == b[d].drawable_id,
    ensures
        find_draw(a, id, last, n) == find_draw(b, id, last, n),
    decreases n,
{
    if n > 0 {
        lemma_find_draw_agree(a, b, id, last, (n - 1) as nat);
        assert(a[n - 1].drawable_id == b[n - 1].drawable_id);
    }
}

proof fn lemma_passes_values_agree(p: RenderPlanView, q: RenderPlanView, n: nat)
    requires
        n <= p.masks.len(),
        p.masks == q.masks,
        lookup_uses_table(p) == lookup_uses_table(q),
        p.mask_draws.len() == q.mask_draws.len(),
        forall|d: int| 0 <= d < p.mask_draws.len() ==> mask_id_values(Some(#[trigger] p.mask_draws[d]))
            == mask_id_values(Some(q.mask_draws[d])) && p.mask_draws[d].drawable_id == q.mask_draws[d].drawable_id,
    ensures
        mask_passes_values(p, n) == mask_passes_values(q, n),
    decreases n,
{
    if n > 0 {
        lemma_passes_values_agree(p, q, (n - 1) as nat);
        lemma_pass_id_values_agree(p, q, n - 1, p.masks[n - 1].drawable_ids.len());
    }
}

/// The mask atlas signature looks only at what the atlas draws: two plans with the same
/// mask passes whose mask draws agree in drawable, texture and packed ranges (whatever
/// their opacity, blend or mask) have the same signature.
pub proof fn law_mask_signature_ignores_draw_opacity(
    p: RenderPlanView,
    q: RenderPlanView,
    transform_bits: Seq<u32>,
    canvas_bits: Seq<u32>,
    layout: MaskAtlasLayout,
)
    requires
        p.masks == q.masks,
        p.mask_draws.len() == q.mask_draws.len(),
        forall|d: int|
            0 <= d < p.mask_draws.len() ==> {
                let x = #[trigger] p.mask_draws[d];
                let y = q.mask_draws[d];
                &&& x.drawable_id == y.drawable_id
                &&& x.texture_index == y.texture_index
                &&& x.vertex_range == y.vertex_range
                &&& x.index_range == y.index_range
            },
    ensures
        mask_signature_of(p, transform_bits, canvas_bits, layout) == mask_signature_of(
            q,
            transform_bits,
            canvas_bits,
            layout,
        ),
{
    assert(lookup_uses_table(p) == lookup_uses_table(q));
    assert forall|d: int| 0 <= d < p.mask_draws.len() implies mask_id_values(Some(#[trigger] p.mask_draws[d]))
        == mask_id_values(Some(q.mask_draws[d])) && p.mask_draws[d].drawable_id == q.mask_draws[d].drawable_id by {
        let x = p.mask_draws[d];
        let y = q.mask_draws[d];
        assert(x.vertex_range == y.vertex_range);
        assert(x.index_range == y.index_range);
    }
    lemma_passes_values_agree(p, q, p.masks.len());
    assert(mask_signature_values(p, transform_bits, canvas_bits, layout) == mask_signature_values(
        q,
        transform_bits,
        canvas_bits,
        layout,
    ));
}

} // verus!
