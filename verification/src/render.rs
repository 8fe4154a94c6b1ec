use crate::commands::{commands_end_exec, render_commands};
use crate::layout::{index_total, lemma_totals_monotone, packing_fits, resident_rows, vertex_total};
use crate::model::{clone_offscreens, ModelSnapshot};
use crate::plan::{
    fresh_layout, mask_passes_of, masks_view, plannable,
    planned, MaskPass, RenderPlan,
};
use crate::planner::{
    resident_drawable_indices, build_drawable_table, build_mask_group_table, build_model_ctx, draw_commands_for_visible_rows,
    lemma_fresh_layout_fits, mask_draw_commands_from_table, pass_keys, sorted_drawable_rows,
};
use vstd::prelude::*;

verus! {

/// Turns snapshots into render plans.
#[derive(Debug, Clone, Default)]
pub struct RenderPlanner;

pub proof fn lemma_masks_view(masks: Seq<MaskPass>)
    requires
        forall|i: int| 0 <= i < masks.len() ==> (#[trigger] masks[i]).id == crate::model::MaskRef(i as usize),
    ensures
        masks_view(masks) == mask_passes_of(pass_keys(masks)),
{
    assert(masks_view(masks) =~= mask_passes_of(pass_keys(masks)));
}

impl RenderPlanner {
    pub fn new() -> (r: Self) {
        RenderPlanner
    }

    /// The render plan of a snapshot.
    pub fn build(&self, snapshot: &ModelSnapshot) -> (plan: RenderPlan)
        requires
            plannable(snapshot@),
        ensures
            plan@ == planned(snapshot@),
    {
        let table = build_drawable_table(snapshot);
        let model = build_model_ctx(snapshot, &table);
        let rows = sorted_drawable_rows(&table);
        proof {
            assert(snapshot@.drawables.len() == snapshot.drawables.len());
            lemma_fresh_layout_fits(snapshot@, rows@);
        }
        let mask_table = build_mask_group_table(snapshot, &table, &rows);
        let ghost l = fresh_layout(snapshot@);
        let mask_draws = mask_draw_commands_from_table(snapshot, &table, &mask_table, Ghost(l));
        let draws = draw_commands_for_visible_rows(snapshot, &table, &rows, &mask_table, Ghost(l));
        let commands = render_commands(snapshot, &draws);
        proof {
            lemma_masks_view(mask_table.masks@);
        }
        RenderPlan {
            model,
            masks: mask_table.masks,
            mask_draws,
            draws,
            offscreens: clone_offscreens(&snapshot.offscreens),
            commands,
        }
    }
}

/// Whether the geometry of the drawables that a plan packs fits 32-bit vertex and index
/// ranges.
pub fn packing_fits_exec(snapshot: &ModelSnapshot) -> (r: bool)
    ensures
        r == packing_fits(snapshot@),
{
    let ghost ds = snapshot@.drawables;
    let rows = resident_drawable_indices(snapshot);
    let count = snapshot.drawables.len();
    proof {
        assert(ds.len() == count);
        crate::layout::lemma_resident_prefix(ds, ds.len());
    }
    let mut vertices: u64 = 0;
    let mut indices: u64 = 0;
    let mut r: usize = 0;
    while r < rows.len()
        invariant
            r <= rows@.len(),
            ds == snapshot@.drawables,
            ds.len() == snapshot.drawables@.len(),
            rows@ == resident_rows(ds),
            forall|t: int| 0 <= t < rows@.len() ==> rows@[t] < ds.len(),
            vertices == vertex_total(ds, rows@, r as nat),
            indices == index_total(ds, rows@, r as nat),
            vertices <= u32::MAX,
            indices <= u32::MAX,
        decreases rows@.len() - r,
    {
        let d = &snapshot.drawables[rows[r]];
        assert(ds[rows@[r as int] as int] == d@);
        let vc = d.vertices.len() as u64;
        let ic = d.indices.len() as u64;
        if vc > u32::MAX as u64 - vertices || ic > u32::MAX as u64 - indices {
            proof {
                lemma_totals_monotone(ds, rows@, (r + 1) as nat, rows@.len());
            }
            return false;
        }
        vertices = vertices + vc;
        indices = indices + ic;
        r = r + 1;
    }
    true
}

/// Whether a snapshot can be planned: its packed geometry fits 32-bit ranges, and
/// building its main-pass commands comes to an end.
pub fn is_plannable(snapshot: &ModelSnapshot) -> (r: bool)
    requires
        snapshot.part_parent_indices@.len() < usize::MAX,
    ensures
        r == plannable(snapshot@),
{
    if !packing_fits_exec(snapshot) {
        return false;
    }
    if snapshot.offscreens.len() == 0 {
        return true;
    }
    let table = build_drawable_table(snapshot);
    let rows = sorted_drawable_rows(&table);
    proof {
        assert(snapshot@.drawables.len() == snapshot.drawables.len());
        lemma_fresh_layout_fits(snapshot@, rows@);
    }
    let mask_table = build_mask_group_table(snapshot, &table, &rows);
    let ghost l = fresh_layout(snapshot@);
    let draws = draw_commands_for_visible_rows(snapshot, &table, &rows, &mask_table, Ghost(l));
    commands_end_exec(snapshot, &draws)
}

} // verus!
