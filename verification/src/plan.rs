use crate::layout::{
    index_range_of, mask_keys, mask_refs, render_order_rows, resident_rows, row_facts,
    should_draw, vertex_range_of, MaskKey,
};
use crate::model::{
    ids_view, BlendMode, DrawableId, DrawableRanges, DrawableView, MaskRef, MaterialKey,
    Offscreen, OffscreenView, RenderObjectView, SnapshotView,
};
use std::ops::Range;
use vstd::prelude::*;

verus! {

/// The packed geometry of one resident drawable.
#[derive(Debug, PartialEq)]
pub struct DrawableRenderCtx {
    pub drawable_id: DrawableId,
    pub texture_index: usize,
    pub ranges: DrawableRanges,
}

pub struct DrawableCtxView {
    pub drawable_id: Seq<char>,
    pub texture_index: usize,
    pub vertex_range: Range<u32>,
    pub index_range: Range<u32>,
}

impl View for DrawableRenderCtx {
    type V = DrawableCtxView;

    open spec fn view(&self) -> DrawableCtxView {
        DrawableCtxView {
            drawable_id: self.drawable_id@,
            texture_index: self.texture_index,
            vertex_range: self.ranges.vertex_range,
            index_range: self.ranges.index_range,
        }
    }
}

impl Clone for DrawableRenderCtx {
    fn clone(&self) -> (r: Self)
        ensures
            r@ == self@,
    {
        DrawableRenderCtx {
            drawable_id: self.drawable_id.clone(),
            texture_index: self.texture_index,
            ranges: self.ranges.clone(),
        }
    }
}

/// Sizes of the packed model buffers and where each resident drawable lies in them.
#[derive(Debug, PartialEq)]
pub struct ModelRenderCtx {
    pub vertex_count: u32,
    pub index_count: u32,
    pub drawables: Vec<DrawableRenderCtx>,
}

pub struct ModelCtxView {
    pub vertex_count: u32,
    pub index_count: u32,
    pub drawables: Seq<DrawableCtxView>,
}

impl View for ModelRenderCtx {
    type V = ModelCtxView;

    open spec fn view(&self) -> ModelCtxView {
        ModelCtxView {
            vertex_count: self.vertex_count,
            index_count: self.index_count,
            drawables: self.drawables@.map_values(|d: DrawableRenderCtx| d@),
        }
    }
}

impl Clone for ModelRenderCtx {
    fn clone(&self) -> (r: Self)
        ensures
            r@ == self@,
    {
        let mut drawables: Vec<DrawableRenderCtx> = Vec::new();
        let mut i: usize = 0;
        while i < self.drawables.len()
            invariant
                i <= self.drawables.len(),
                drawables@.len() == i,
                forall|k: int| 0 <= k < i ==> drawables@[k]@ == self.drawables@[k]@,
            decreases self.drawables.len() - i,
        {
            drawables.push(self.drawables[i].clone());
            i = i + 1;
        }
        let r = ModelRenderCtx {
            vertex_count: self.vertex_count,
            index_count: self.index_count,
            drawables,
        };
        assert(r@.drawables =~= self@.drawables);
        r
    }
}

/// One mask pass: the mask drawables drawn into one clip mask.
#[derive(Debug, PartialEq)]
pub struct MaskPass {
    pub id: MaskRef,
    pub drawable_ids: Vec<DrawableId>,
    pub inverted: bool,
}

pub struct MaskPassView {
    pub id: MaskRef,
    pub drawable_ids: Seq<Seq<char>>,
    pub inverted: bool,
}

impl View for MaskPass {
    type V = MaskPassView;

    open spec fn view(&self) -> MaskPassView {
        MaskPassView {
            id: self.id,
            drawable_ids: ids_view(self.drawable_ids@),
            inverted: self.inverted,
        }
    }
}

impl Clone for MaskPass {
    fn clone(&self) -> (r: Self)
        ensures
            r@ == self@,
    {
        MaskPass {
            id: self.id,
            drawable_ids: crate::model::clone_ids(&self.drawable_ids),
            inverted: self.inverted,
        }
    }
}

/// One draw call.
///
/// `opacity_bits` is the IEEE-754 single-precision bit pattern of the opacity.
#[derive(Debug, PartialEq)]
pub struct DrawCommand {
    pub drawable_id: DrawableId,
    pub texture_index: usize,
    pub vertex_range: Range<u32>,
    pub index_range: Range<u32>,
    pub opacity_bits: u32,
    pub blend_mode: BlendMode,
    pub mask: Option<MaskRef>,
    pub inverted_mask: bool,
    pub material: MaterialKey,
}

pub struct DrawCommandView {
    pub drawable_id: Seq<char>,
    pub texture_index: usize,
    pub vertex_range: Range<u32>,
    pub index_range: Range<u32>,
    pub opacity_bits: u32,
    pub blend_mode: BlendMode,
    pub mask: Option<MaskRef>,
    pub inverted_mask: bool,
    pub material: MaterialKey,
}

impl View for DrawCommand {
    type V = DrawCommandView;

    open spec fn view(&self) -> DrawCommandView {
        DrawCommandView {
            drawable_id: self.drawable_id@,
            texture_index: self.texture_index,
            vertex_range: self.vertex_range,
            index_range: self.index_range,
            opacity_bits: self.opacity_bits,
            blend_mode: self.blend_mode,
            mask: self.mask,
            inverted_mask: self.inverted_mask,
            material: self.material,
        }
    }
}

/// A step of the main pass: a draw, or the start or end of an offscreen layer.
#[derive(Debug, Clone, Copy, PartialEq, Eq, Structural)]
pub enum RenderCommand {
    BeginOffscreen { offscreen_index: usize },
    Draw { draw_index: usize },
    CompositeOffscreen { offscreen_index: usize },
}

/// Everything a backend needs to draw one snapshot.
#[derive(Debug, PartialEq)]
pub struct RenderPlan {
    pub model: ModelRenderCtx,
    pub masks: Vec<MaskPass>,
    pub mask_draws: Vec<DrawCommand>,
    pub draws: Vec<DrawCommand>,
    pub offscreens: Vec<Offscreen>,
    pub commands: Vec<RenderCommand>,
}

pub struct RenderPlanView {
    pub model: ModelCtxView,
    pub masks: Seq<MaskPassView>,
    pub mask_draws: Seq<DrawCommandView>,
    pub draws: Seq<DrawCommandView>,
    pub offscreens: Seq<OffscreenView>,
    pub commands: Seq<RenderCommand>,
}

pub open spec fn masks_view(v: Seq<MaskPass>) -> Seq<MaskPassView> {
    v.map_values(|m: MaskPass| m@)
}

pub open spec fn commands_view(v: Seq<DrawCommand>) -> Seq<DrawCommandView> {
    v.map_values(|d: DrawCommand| d@)
}

impl View for RenderPlan {
    type V = RenderPlanView;

    open spec fn view(&self) -> RenderPlanView {
        RenderPlanView {
            model: self.model@,
            masks: masks_view(self.masks@),
            mask_draws: commands_view(self.mask_draws@),
            draws: commands_view(self.draws@),
            offscreens: crate::model::offscreens_view(self.offscreens@),
            commands: self.commands@,
        }
    }
}

/// How a snapshot's resident drawables are laid out and grouped: the rows of the
/// drawable table, their packed ranges, their draw order and their mask groups.
pub struct PlanLayout {
    pub source_indices: Seq<usize>,
    pub vertex_ranges: Seq<Range<u32>>,
    pub index_ranges: Seq<Range<u32>>,
    pub render_orders: Seq<i32>,
    pub ordered_rows: Seq<usize>,
    pub masks: Seq<MaskKey>,
    pub mask_refs: Seq<Option<MaskRef>>,
}

/// Render orders of the drawables behind the rows `res`.
pub open spec fn row_render_orders(ds: Seq<DrawableView>, res: Seq<usize>) -> Seq<i32> {
    Seq::new(res.len(), |r: int| ds[res[r] as int].render_order)
}

/// The layout that planning a snapshot from scratch produces.
pub open spec fn fresh_layout(s: SnapshotView) -> PlanLayout {
    let ds = s.drawables;
    let res = resident_rows(ds);
    let orders = row_render_orders(ds, res);
    let rows = render_order_rows(orders);
    let facts = row_facts(ds, res);
    PlanLayout {
        source_indices: res,
        vertex_ranges: Seq::new(res.len(), |r: int| vertex_range_of(ds, res, r)),
        index_ranges: Seq::new(res.len(), |r: int| index_range_of(ds, res, r)),
        render_orders: orders,
        ordered_rows: rows,
        masks: mask_keys(facts, rows),
        mask_refs: mask_refs(facts, rows),
    }
}

/// The model context of a layout.
pub open spec fn model_of(ds: Seq<DrawableView>, l: PlanLayout) -> ModelCtxView {
    let m = l.source_indices.len();
    ModelCtxView {
        vertex_count: if m == 0 {
            0
        } else {
            l.vertex_ranges.last().end
        },
        index_count: if m == 0 {
            0
        } else {
            l.index_ranges.last().end
        },
        drawables: Seq::new(
            m,
            |r: int|
                DrawableCtxView {
                    drawable_id: ds[l.source_indices[r] as int].id,
                    texture_index: ds[l.source_indices[r] as int].texture_index,
                    vertex_range: l.vertex_ranges[r],
                    index_range: l.index_ranges[r],
                },
        ),
    }
}

/// The draw call for a drawable with these packed ranges and this mask.
pub open spec fn command_for(
    d: DrawableView,
    vertex_range: Range<u32>,
    index_range: Range<u32>,
    mask: Option<MaskRef>,
) -> DrawCommandView {
    DrawCommandView {
        drawable_id: d.id,
        texture_index: d.texture_index,
        vertex_range,
        index_range,
        opacity_bits: d.opacity_bits,
        blend_mode: d.blend_mode,
        mask,
        inverted_mask: match d.clipping {
            Some(c) => c.inverted,
            None => false,
        },
        material: MaterialKey::Default,
    }
}

/// The draw call of table row `row`.
pub open spec fn row_command(ds: Seq<DrawableView>, l: PlanLayout, row: int) -> DrawCommandView {
    command_for(
        ds[l.source_indices[row] as int],
        l.vertex_ranges[row],
        l.index_ranges[row],
        l.mask_refs[row],
    )
}

/// Rows among the first `t` in draw order that the main pass draws.
pub open spec fn drawn_rows(ds: Seq<DrawableView>, l: PlanLayout, t: nat) -> Seq<usize>
    decreases t,
{
    if t == 0 {
        Seq::empty()
    } else {
        let p = drawn_rows(ds, l, (t - 1) as nat);
        let row = l.ordered_rows[t - 1];
        if should_draw(ds[l.source_indices[row as int] as int]) {
            p.push(row)
        } else {
            p
        }
    }
}

/// Some mask group names this id.
pub open spec fn masks_name(keys: Seq<MaskKey>, id: Seq<char>) -> bool {
    exists|i: int| 0 <= i < keys.len() && #[trigger] keys[i].drawable_ids.contains(id)
}

/// Rows among the first `n`, in row order, whose drawable some mask group names.
pub open spec fn mask_draw_rows(ds: Seq<DrawableView>, l: PlanLayout, n: nat) -> Seq<usize>
    decreases n,
{
    if n == 0 {
        Seq::empty()
    } else {
        let p = mask_draw_rows(ds, l, (n - 1) as nat);
        if masks_name(l.masks, ds[l.source_indices[n - 1] as int].id) {
            p.push((n - 1) as usize)
        } else {
            p
        }
    }
}

pub open spec fn mask_passes_of(keys: Seq<MaskKey>) -> Seq<MaskPassView> {
    Seq::new(
        keys.len(),
        |i: int|
            MaskPassView {
                id: MaskRef(i as usize),
                drawable_ids: keys[i].drawable_ids,
                inverted: keys[i].inverted,
            },
    )
}

pub open spec fn draws_of(ds: Seq<DrawableView>, l: PlanLayout) -> Seq<DrawCommandView> {
    drawn_rows(ds, l, l.ordered_rows.len()).map_values(|row: usize| row_command(ds, l, row as int))
}

pub open spec fn mask_draws_of(ds: Seq<DrawableView>, l: PlanLayout) -> Seq<DrawCommandView> {
    mask_draw_rows(ds, l, l.source_indices.len()).map_values(
        |row: usize| row_command(ds, l, row as int),
    )
}

// ---------------------------------------------------------------------------
// Offscreen nesting of the main pass.
/// The parent of a part, if the part exists and has one.
pub open spec fn parent_of_part(parents: Seq<Option<usize>>, p: usize) -> Option<usize> {
    if p < parents.len() {
        parents[p as int]
    } else {
        None
    }
}

/// Walking up from `part` reaches `ancestor` within `fuel` steps.
pub open spec fn reaches_part(
    parents: Seq<Option<usize>>,
    part: Option<usize>,
    ancestor: usize,
    fuel: nat,
) -> bool
    decreases fuel,
{
    match part {
        None => false,
        Some(p) => if p == ancestor {
            true
        } else if fuel == 0 {
            false
        } else {
            reaches_part(parents, parent_of_part(parents, p), ancestor, (fuel - 1) as nat)
        },
    }
}

/// Walking up from `part` runs out of parents within `fuel` steps.
pub open spec fn chain_ends(parents: Seq<Option<usize>>, part: Option<usize>, fuel: nat) -> bool
    decreases fuel,
{
    match part {
        None => true,
        Some(p) => fuel > 0 && chain_ends(parents, parent_of_part(parents, p), (fuel - 1) as nat),
    }
}

/// `part` is `ancestor` or lies below it.
pub open spec fn part_descends_from(
    parents: Seq<Option<usize>>,
    part: Option<usize>,
    ancestor: Option<usize>,
) -> bool {
    match ancestor {
        None => false,
        Some(a) => reaches_part(parents, part, a, (parents.len() + 1) as nat),
    }
}

/// Main-pass commands emitted so far and the stack of open offscreens.
pub struct CommandState {
    pub commands: Seq<RenderCommand>,
    pub active: Seq<usize>,
}

/// The owner part of an open offscreen.
pub open spec fn offscreen_owner(s: SnapshotView, k: usize) -> Option<usize> {
    if k < s.offscreens.len() {
        s.offscreens[k as int].owner_part_index
    } else {
        None
    }
}

/// Composites the open offscreens, innermost first, until one owns `target`.
pub open spec fn close_offscreens(
    s: SnapshotView,
    target: Option<usize>,
    st: CommandState,
) -> CommandState
    decreases st.active.len(),
{
    if st.active.len() == 0 {
        st
    } else {
        let k = st.active.last();
        if part_descends_from(s.part_parent_indices, target, offscreen_owner(s, k)) {
            st
        } else {
            close_offscreens(
                s,
                target,
                CommandState {
                    commands: st.commands.push(RenderCommand::CompositeOffscreen { offscreen_index: k }),
                    active: st.active.drop_last(),
                },
            )
        }
    }
}

/// Index of the last draw among the first `n` for this drawable id.
pub open spec fn last_draw_with_id(draws: Seq<DrawCommandView>, id: Seq<char>, n: nat) -> Option<
    usize,
>
    decreases n,
{
    if n == 0 {
        None
    } else if draws[n - 1].drawable_id == id {
        Some((n - 1) as usize)
    } else {
        last_draw_with_id(draws, id, (n - 1) as nat)
    }
}

/// The parent part of the last drawable among the first `n` with this id.
pub open spec fn drawable_parent(ds: Seq<DrawableView>, id: Seq<char>, n: nat) -> Option<usize>
    decreases n,
{
    if n == 0 {
        None
    } else if ds[n - 1].id == id {
        ds[n - 1].parent_part_index
    } else {
        drawable_parent(ds, id, (n - 1) as nat)
    }
}

/// The objects of the main pass in order: the snapshot's own order, or the draws.
pub open spec fn ordered_objects(s: SnapshotView, draws: Seq<DrawCommandView>) -> Seq<
    RenderObjectView,
> {
    if s.render_objects.len() == 0 {
        Seq::new(draws.len(), |i: int| RenderObjectView::Drawable(draws[i].drawable_id))
    } else {
        s.render_objects
    }
}

/// One object of the main pass.
pub open spec fn command_step(
    s: SnapshotView,
    draws: Seq<DrawCommandView>,
    st: CommandState,
    object: RenderObjectView,
) -> CommandState {
    match object {
        RenderObjectView::Drawable(id) => match last_draw_with_id(draws, id, draws.len()) {
            None => st,
            Some(di) => {
                let st2 = close_offscreens(s, drawable_parent(s.drawables, id, s.drawables.len()), st);
                CommandState {
                    commands: st2.commands.push(RenderCommand::Draw { draw_index: di }),
                    active: st2.active,
                }
            },
        },
        RenderObjectView::Offscreen(k) => if k >= s.offscreens.len() {
            st
        } else {
            let parent = match s.offscreens[k as int].owner_part_index {
                Some(owner) => parent_of_part(s.part_parent_indices, owner),
                None => None,
            };
            let st2 = close_offscreens(s, parent, st);
            CommandState {
                commands: st2.commands.push(RenderCommand::BeginOffscreen { offscreen_index: k }),
                active: st2.active.push(k),
            }
        },
    }
}

/// The state after the first `t` objects of the main pass.
pub open spec fn command_run(s: SnapshotView, draws: Seq<DrawCommandView>, t: nat) -> CommandState
    decreases t,
{
    if t == 0 {
        CommandState { commands: Seq::empty(), active: Seq::empty() }
    } else {
        command_step(
            s,
            draws,
            command_run(s, draws, (t - 1) as nat),
            ordered_objects(s, draws)[t - 1],
        )
    }
}

/// Composites every offscreen still open, innermost first.
pub open spec fn drain_offscreens(st: CommandState) -> Seq<RenderCommand>
    decreases st.active.len(),
{
    if st.active.len() == 0 {
        st.commands
    } else {
        drain_offscreens(
            CommandState {
                commands: st.commands.push(
                    RenderCommand::CompositeOffscreen { offscreen_index: st.active.last() },
                ),
                active: st.active.drop_last(),
            },
        )
    }
}

/// The main-pass commands for these draws.
pub open spec fn render_commands_of(s: SnapshotView, draws: Seq<DrawCommandView>) -> Seq<
    RenderCommand,
> {
    if s.offscreens.len() == 0 {
        Seq::new(draws.len(), |i: int| RenderCommand::Draw { draw_index: i as usize })
    } else {
        drain_offscreens(command_run(s, draws, ordered_objects(s, draws).len()))
    }
}

/// The plan for a snapshot, given its layout and model context.
pub open spec fn plan_from(s: SnapshotView, l: PlanLayout, model: ModelCtxView) -> RenderPlanView {
    let draws = draws_of(s.drawables, l);
    RenderPlanView {
        model,
        masks: mask_passes_of(l.masks),
        mask_draws: mask_draws_of(s.drawables, l),
        draws,
        offscreens: s.offscreens,
        commands: render_commands_of(s, draws),
    }
}

/// The plan for a snapshot.
pub open spec fn planned(s: SnapshotView) -> RenderPlanView {
    plan_from(s, fresh_layout(s), model_of(s.drawables, fresh_layout(s)))
}

/// Walking up from `part` in search of `ancestor` stops: there is no ancestor to look
/// for, or the walk meets it, or it runs out of parents; it does not go round a cycle
/// of parts that `ancestor` is not on.
pub open spec fn walk_stops(parents: Seq<Option<usize>>, part: Option<usize>, ancestor: Option<usize>) -> bool {
    match ancestor {
        None => true,
        Some(a) => reaches_part(parents, part, a, (parents.len() + 1) as nat) || chain_ends(
            parents,
            part,
            (parents.len() + 1) as nat,
        ),
    }
}

/// Every walk that closing offscreens for `target` makes stops, the open offscreens
/// being `active` (innermost last).
pub open spec fn close_stops(s: SnapshotView, target: Option<usize>, active: Seq<usize>) -> bool
    decreases active.len(),
{
    if active.len() == 0 {
        true
    } else {
        let k = active.last();
        &&& walk_stops(s.part_parent_indices, target, offscreen_owner(s, k))
        &&& (part_descends_from(s.part_parent_indices, target, offscreen_owner(s, k)) || close_stops(
            s,
            target,
            active.drop_last(),
        ))
    }
}

/// Every walk that one object of the main pass makes stops.
pub open spec fn step_stops(
    s: SnapshotView,
    draws: Seq<DrawCommandView>,
    st: CommandState,
    object: RenderObjectView,
) -> bool {
    match object {
        RenderObjectView::Drawable(id) => match last_draw_with_id(draws, id, draws.len()) {
            None => true,
            Some(_) => close_stops(s, drawable_parent(s.drawables, id, s.drawables.len()), st.active),
        },
        RenderObjectView::Offscreen(k) => k >= s.offscreens.len() || close_stops(
            s,
            match s.offscreens[k as int].owner_part_index {
                Some(owner) => parent_of_part(s.part_parent_indices, owner),
                None => None,
            },
            st.active,
        ),
    }
}

/// Every walk that the first `t` objects of the main pass make stops.
pub open spec fn run_stops(s: SnapshotView, draws: Seq<DrawCommandView>, t: nat) -> bool
    decreases t,
{
    t == 0 || (run_stops(s, draws, (t - 1) as nat) && step_stops(
        s,
        draws,
        command_run(s, draws, (t - 1) as nat),
        ordered_objects(s, draws)[t - 1],
    ))
}

/// Building the main-pass commands for these draws comes to an end: without offscreens
/// nothing walks the part tree; with them, every walk up the part tree stops.
pub open spec fn commands_end(s: SnapshotView, draws: Seq<DrawCommandView>) -> bool {
    s.offscreens.len() == 0 || run_stops(s, draws, ordered_objects(s, draws).len())
}

/// What the planner needs of a snapshot: the packed geometry fits 32-bit offsets, and
/// building its main-pass commands comes to an end.
pub open spec fn plannable(s: SnapshotView) -> bool {
    &&& crate::layout::packing_fits(s)
    &&& commands_end(s, draws_of(s.drawables, fresh_layout(s)))
}

} // verus!
