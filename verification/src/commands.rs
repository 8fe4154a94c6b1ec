use crate::model::{DrawableId, ModelSnapshot, RenderObject};
use crate::model::{DrawableView, SnapshotView};
use crate::plan::{
    chain_ends, close_offscreens, close_stops, command_run, command_step, commands_end,
    commands_view, drain_offscreens, drawable_parent, last_draw_with_id, offscreen_owner,
    ordered_objects, parent_of_part, part_descends_from, reaches_part, render_commands_of,
    run_stops, step_stops, walk_stops, CommandState, DrawCommand, DrawCommandView, RenderCommand,
    draws_of, drawn_rows, PlanLayout,
};
use vstd::prelude::*;

verus! {

/// Walks that stop for the first `b` objects stop for the first `a`.
pub proof fn lemma_run_stops_prefix(s: SnapshotView, draws: Seq<DrawCommandView>, a: nat, b: nat)
    requires
        a <= b,
        run_stops(s, draws, b),
    ensures
        run_stops(s, draws, a),
    decreases b,
{
    if a < b {
        lemma_run_stops_prefix(s, draws, a, (b - 1) as nat);
    }
}

fn parent_part_index(snapshot: &ModelSnapshot, part_index: usize) -> (r: Option<usize>)
    ensures
        r == parent_of_part(snapshot@.part_parent_indices, part_index),
{
    if part_index < snapshot.part_parent_indices.len() {
        snapshot.part_parent_indices[part_index]
    } else {
        None
    }
}

/// Whether `part` is `ancestor` or lies below it in the part tree.
fn part_is_descendant_of(
    snapshot: &ModelSnapshot,
    part_index: Option<usize>,
    ancestor_index: Option<usize>,
) -> (r: bool)
    requires
        walk_stops(snapshot@.part_parent_indices, part_index, ancestor_index),
    ensures
        r == part_descends_from(snapshot@.part_parent_indices, part_index, ancestor_index),
{
    let ghost parents = snapshot@.part_parent_indices;
    let ancestor = match ancestor_index {
        None => {
            return false;
        },
        Some(a) => a,
    };
    let ghost mut fuel: nat = (parents.len() + 1) as nat;
    let mut part = part_index;
    while part.is_some()
        invariant
            parents == snapshot@.part_parent_indices,
            reaches_part(parents, part, ancestor, fuel) || chain_ends(parents, part, fuel),
            reaches_part(parents, part, ancestor, fuel) == part_descends_from(
                parents,
                part_index,
                ancestor_index,
            ),
            ancestor_index == Some(ancestor),
        decreases fuel,
    {
        let current = part.unwrap();
        if current == ancestor {
            return true;
        }
        part = parent_part_index(snapshot, current);
        proof {
            fuel = (fuel - 1) as nat;
        }
    }
    false
}

/// Composites open offscreens, innermost first, until one owns `target`.
fn close_completed_offscreens(
    snapshot: &ModelSnapshot,
    target_parent_part_index: Option<usize>,
    active_offscreens: &mut Vec<usize>,
    commands: &mut Vec<RenderCommand>,
)
    requires
        close_stops(snapshot@, target_parent_part_index, old(active_offscreens)@),
    ensures
        (CommandState { commands: final(commands)@, active: final(active_offscreens)@ })
            == close_offscreens(
            snapshot@,
            target_parent_part_index,
            CommandState { commands: old(commands)@, active: old(active_offscreens)@ },
        ),
{
    let ghost goal = close_offscreens(
        snapshot@,
        target_parent_part_index,
        CommandState { commands: commands@, active: active_offscreens@ },
    );
    while active_offscreens.len() > 0
        invariant
            close_stops(snapshot@, target_parent_part_index, active_offscreens@),
            close_offscreens(
                snapshot@,
                target_parent_part_index,
                CommandState { commands: commands@, active: active_offscreens@ },
            ) == goal,
        ensures
            (CommandState { commands: commands@, active: active_offscreens@ }) == goal,
        decreases active_offscreens@.len(),
    {
        let offscreen_index = active_offscreens[active_offscreens.len() - 1];
        let owner_part_index = if offscreen_index < snapshot.offscreens.len() {
            snapshot.offscreens[offscreen_index].owner_part_index
        } else {
            None
        };
        assert(owner_part_index == offscreen_owner(snapshot@, offscreen_index));
        if part_is_descendant_of(snapshot, target_parent_part_index, owner_part_index) {
            break;
        }
        let ghost before = active_offscreens@;
        active_offscreens.pop();
        assert(active_offscreens@ == before.drop_last());
        commands.push(RenderCommand::CompositeOffscreen { offscreen_index });
    }
}

/// Index of the last draw call for this drawable id.
fn last_draw_index(draws: &Vec<DrawCommand>, id: &DrawableId) -> (r: Option<usize>)
    ensures
        r == last_draw_with_id(commands_view(draws@), id@, draws@.len()),
{
    let ghost dv = commands_view(draws@);
    let mut n: usize = draws.len();
    while n > 0
        invariant
            n <= draws@.len(),
            dv == commands_view(draws@),
            last_draw_with_id(dv, id@, n as nat) == last_draw_with_id(dv, id@, draws@.len()),
        decreases n,
    {
        if draws[n - 1].drawable_id.same_as(id) {
            return Some(n - 1);
        }
        n = n - 1;
    }
    None
}

/// The parent part of the last drawable with this id.
fn drawable_parent_index(snapshot: &ModelSnapshot, id: &DrawableId) -> (r: Option<usize>)
    ensures
        r == drawable_parent(snapshot@.drawables, id@, snapshot@.drawables.len()),
{
    let ghost ds = snapshot@.drawables;
    let mut n: usize = snapshot.drawables.len();
    while n > 0
        invariant
            n <= snapshot.drawables@.len(),
            ds == snapshot@.drawables,
            ds.len() == snapshot.drawables@.len(),
            drawable_parent(ds, id@, n as nat) == drawable_parent(ds, id@, ds.len()),
        decreases n,
    {
        assert(ds[n - 1] == snapshot.drawables@[n - 1]@);
        if snapshot.drawables[n - 1].id.same_as(id) {
            return snapshot.drawables[n - 1].parent_part_index;
        }
        n = n - 1;
    }
    None
}

/// The main-pass step for a drawable object.
fn drawable_step(
    snapshot: &ModelSnapshot,
    draws: &Vec<DrawCommand>,
    id: &DrawableId,
    active: &mut Vec<usize>,
    commands: &mut Vec<RenderCommand>,
)
    requires
        step_stops(
            snapshot@,
            commands_view(draws@),
            CommandState { commands: old(commands)@, active: old(active)@ },
            crate::model::RenderObjectView::Drawable(id@),
        ),
    ensures
        (CommandState { commands: final(commands)@, active: final(active)@ }) == command_step(
            snapshot@,
            commands_view(draws@),
            CommandState { commands: old(commands)@, active: old(active)@ },
            crate::model::RenderObjectView::Drawable(id@),
        ),
{
    match last_draw_index(draws, id) {
        None => {},
        Some(draw_index) => {
            let parent = drawable_parent_index(snapshot, id);
            close_completed_offscreens(snapshot, parent, active, commands);
            commands.push(RenderCommand::Draw { draw_index });
        },
    }
}

/// The main-pass step for an offscreen object.
fn offscreen_step(
    snapshot: &ModelSnapshot,
    draws: &Vec<DrawCommand>,
    offscreen_index: usize,
    active: &mut Vec<usize>,
    commands: &mut Vec<RenderCommand>,
)
    requires
        step_stops(
            snapshot@,
            commands_view(draws@),
            CommandState { commands: old(commands)@, active: old(active)@ },
            crate::model::RenderObjectView::Offscreen(offscreen_index),
        ),
    ensures
        (CommandState { commands: final(commands)@, active: final(active)@ }) == command_step(
            snapshot@,
            commands_view(draws@),
            CommandState { commands: old(commands)@, active: old(active)@ },
            crate::model::RenderObjectView::Offscreen(offscreen_index),
        ),
{
    if offscreen_index >= snapshot.offscreens.len() {
        return;
    }
    let parent = match snapshot.offscreens[offscreen_index].owner_part_index {
        Some(owner) => parent_part_index(snapshot, owner),
        None => None,
    };
    assert(snapshot@.offscreens[offscreen_index as int] == snapshot.offscreens@[offscreen_index as int]@);
    close_completed_offscreens(snapshot, parent, active, commands);
    active.push(offscreen_index);
    commands.push(RenderCommand::BeginOffscreen { offscreen_index });
}

/// The main-pass commands for these draws: draws in order, wrapped in the offscreen
/// layers of their owner parts.
pub fn render_commands(snapshot: &ModelSnapshot, draws: &Vec<DrawCommand>) -> (r: Vec<RenderCommand>)
    requires
        commands_end(snapshot@, commands_view(draws@)),
    ensures
        r@ == render_commands_of(snapshot@, commands_view(draws@)),
{
    let ghost s = snapshot@;
    let ghost dv = commands_view(draws@);
    let mut commands: Vec<RenderCommand> = Vec::new();
    if snapshot.offscreens.len() == 0 {
        let mut i: usize = 0;
        while i < draws.len()
            invariant
                i <= draws.len(),
                commands@.len() == i,
                forall|k: int| 0 <= k < i ==> commands@[k] == (RenderCommand::Draw { draw_index: k as usize }),
            decreases draws.len() - i,
        {
            commands.push(RenderCommand::Draw { draw_index: i });
            i = i + 1;
        }
        assert(commands@ =~= render_commands_of(s, dv));
        return commands;
    }
    let use_draws = snapshot.render_objects.len() == 0;
    let count = if use_draws {
        draws.len()
    } else {
        snapshot.render_objects.len()
    };
    assert(count == ordered_objects(s, dv).len());
    let mut active: Vec<usize> = Vec::new();
    let mut t: usize = 0;
    while t < count
        invariant
            t <= count,
            s == snapshot@,
            dv == commands_view(draws@),
            run_stops(s, dv, count as nat),
            use_draws == (snapshot.render_objects.len() == 0),
            count == ordered_objects(s, dv).len(),
            count == if use_draws { draws@.len() } else { snapshot.render_objects@.len() },
            (CommandState { commands: commands@, active: active@ }) == command_run(s, dv, t as nat),
        decreases count - t,
    {
        proof {
            lemma_run_stops_prefix(s, dv, (t + 1) as nat, count as nat);
        }
        if use_draws {
            assert(ordered_objects(s, dv)[t as int] == crate::model::RenderObjectView::Drawable(
                draws@[t as int]@.drawable_id,
            ));
            drawable_step(snapshot, draws, &draws[t].drawable_id, &mut active, &mut commands);
        } else {
            assert(ordered_objects(s, dv)[t as int] == snapshot.render_objects@[t as int]@);
            match &snapshot.render_objects[t] {
                RenderObject::Drawable(id) => {
                    drawable_step(snapshot, draws, id, &mut active, &mut commands);
                },
                RenderObject::Offscreen(k) => {
                    offscreen_step(snapshot, draws, *k, &mut active, &mut commands);
                },
            }
        }
        t = t + 1;
    }
    let ghost goal = drain_offscreens(CommandState { commands: commands@, active: active@ });
    while active.len() > 0
        invariant
            drain_offscreens(CommandState { commands: commands@, active: active@ }) == goal,
        decreases active@.len(),
    {
        let ghost before = active@;
        let offscreen_index = active.pop().unwrap();
        assert(active@ == before.drop_last());
        commands.push(RenderCommand::CompositeOffscreen { offscreen_index });
    }
    commands
}

/// Whether walking up from `part` in search of `ancestor` stops.
fn walk_stops_exec(snapshot: &ModelSnapshot, part: Option<usize>, ancestor: Option<usize>) -> (r: bool)
    requires
        snapshot@.part_parent_indices.len() < usize::MAX,
    ensures
        r == walk_stops(snapshot@.part_parent_indices, part, ancestor),
{
    let ghost parents = snapshot@.part_parent_indices;
    let a = match ancestor {
        None => {
            return true;
        },
        Some(a) => a,
    };
    let fuel = snapshot.part_parent_indices.len() + 1;
    let mut current = part;
    let mut left: usize = fuel;
    while current.is_some()
        invariant
            parents == snapshot@.part_parent_indices,
            fuel == parents.len() + 1,
            ancestor == Some(a),
            (reaches_part(parents, current, a, left as nat) || chain_ends(parents, current, left as nat))
                == walk_stops(parents, part, ancestor),
        decreases left,
    {
        let p = current.unwrap();
        if p == a {
            return true;
        }
        if left == 0 {
            return false;
        }
        current = parent_part_index(snapshot, p);
        left = left - 1;
    }
    true
}

/// Whether every walk that closing offscreens for `target` makes stops.
fn close_stops_exec(snapshot: &ModelSnapshot, target: Option<usize>, active: &Vec<usize>) -> (r: bool)
    requires
        snapshot@.part_parent_indices.len() < usize::MAX,
    ensures
        r == close_stops(snapshot@, target, active@),
{
    let mut n: usize = active.len();
    assert(active@.take(n as int) =~= active@);
    while n > 0
        invariant
            n <= active@.len(),
            snapshot@.part_parent_indices.len() < usize::MAX,
            close_stops(snapshot@, target, active@.take(n as int)) == close_stops(snapshot@, target, active@),
        decreases n,
    {
        let k = active[n - 1];
        let owner = if k < snapshot.offscreens.len() {
            snapshot.offscreens[k].owner_part_index
        } else {
            None
        };
        assert(owner == offscreen_owner(snapshot@, k));
        assert(active@.take(n as int).last() == k);
        assert(active@.take(n as int).drop_last() =~= active@.take(n - 1));
        if !walk_stops_exec(snapshot, target, owner) {
            return false;
        }
        if part_is_descendant_of(snapshot, target, owner) {
            return true;
        }
        n = n - 1;
    }
    assert(active@.take(0) =~= Seq::<usize>::empty());
    true
}

/// Whether building the main-pass commands for these draws comes to an end.
pub fn commands_end_exec(snapshot: &ModelSnapshot, draws: &Vec<DrawCommand>) -> (r: bool)
    requires
        snapshot@.part_parent_indices.len() < usize::MAX,
    ensures
        r == commands_end(snapshot@, commands_view(draws@)),
{
    let ghost s = snapshot@;
    let ghost dv = commands_view(draws@);
    if snapshot.offscreens.len() == 0 {
        return true;
    }
    let use_draws = snapshot.render_objects.len() == 0;
    let count = if use_draws {
        draws.len()
    } else {
        snapshot.render_objects.len()
    };
    assert(count == ordered_objects(s, dv).len());
    let mut commands: Vec<RenderCommand> = Vec::new();
    let mut active: Vec<usize> = Vec::new();
    let mut t: usize = 0;
    while t < count
        invariant
            t <= count,
            s == snapshot@,
            dv == commands_view(draws@),
            s.part_parent_indices.len() < usize::MAX,
            s.offscreens.len() > 0,
            use_draws == (snapshot.render_objects.len() == 0),
            count == ordered_objects(s, dv).len(),
            count == if use_draws { draws@.len() } else { snapshot.render_objects@.len() },
            run_stops(s, dv, t as nat),
            (CommandState { commands: commands@, active: active@ }) == command_run(s, dv, t as nat),
        decreases count - t,
    {
        let ghost st = CommandState { commands: commands@, active: active@ };
        if use_draws {
            assert(ordered_objects(s, dv)[t as int] == crate::model::RenderObjectView::Drawable(
                draws@[t as int]@.drawable_id,
            ));
            let id = &draws[t].drawable_id;
            if last_draw_index(draws, id).is_some() {
                let parent = drawable_parent_index(snapshot, id);
                if !close_stops_exec(snapshot, parent, &active) {
                    proof {
                        assert(dv.len() == draws@.len());
                        assert(!step_stops(s, dv, st, crate::model::RenderObjectView::Drawable(id@)));
                        if run_stops(s, dv, count as nat) {
                            lemma_run_stops_prefix(s, dv, (t + 1) as nat, count as nat);
                        }
                    }
                    return false;
                }
            }
            drawable_step(snapshot, draws, id, &mut active, &mut commands);
        } else {
            assert(ordered_objects(s, dv)[t as int] == snapshot.render_objects@[t as int]@);
            match &snapshot.render_objects[t] {
                RenderObject::Drawable(id) => {
                    if last_draw_index(draws, id).is_some() {
                        let parent = drawable_parent_index(snapshot, id);
                        if !close_stops_exec(snapshot, parent, &active) {
                            proof {
                                assert(dv.len() == draws@.len());
                                assert(!step_stops(s, dv, st, crate::model::RenderObjectView::Drawable(id@)));
                                if run_stops(s, dv, count as nat) {
                                    lemma_run_stops_prefix(s, dv, (t + 1) as nat, count as nat);
                                }
                            }
                            return false;
                        }
                    }
                    drawable_step(snapshot, draws, id, &mut active, &mut commands);
                },
                RenderObject::Offscreen(k) => {
                    if *k < snapshot.offscreens.len() {
                        let parent = match snapshot.offscreens[*k].owner_part_index {
                            Some(owner) => parent_part_index(snapshot, owner),
                            None => None,
                        };
                        assert(snapshot@.offscreens[*k as int] == snapshot.offscreens@[*k as int]@);
                        if !close_stops_exec(snapshot, parent, &active) {
                            proof {
                                if run_stops(s, dv, count as nat) {
                                    lemma_run_stops_prefix(s, dv, (t + 1) as nat, count as nat);
                                }
                            }
                            return false;
                        }
                    }
                    offscreen_step(snapshot, draws, *k, &mut active, &mut commands);
                },
            }
        }
        t = t + 1;
    }
    true
}

/// The drawable ids of draws, in order.
pub open spec fn draw_ids(draws: Seq<DrawCommandView>) -> Seq<Seq<char>> {
    draws.map_values(|d: DrawCommandView| d.drawable_id)
}

proof fn lemma_last_draw_same_ids(d1: Seq<DrawCommandView>, d2: Seq<DrawCommandView>, id: Seq<char>, n: nat)
    requires
        draw_ids(d1) == draw_ids(d2),
        n <= d1.len(),
    ensures
        last_draw_with_id(d1, id, n) == last_draw_with_id(d2, id, n),
    decreases n,
{
    assert(d1.len() == draw_ids(d1).len() && d2.len() == draw_ids(d2).len());
    if n > 0 {
        assert(draw_ids(d1)[n - 1] == draw_ids(d2)[n - 1]);
        assert(d1[n - 1].drawable_id == draw_ids(d1)[n - 1]);
        assert(d2[n - 1].drawable_id == draw_ids(d2)[n - 1]);
        lemma_last_draw_same_ids(d1, d2, id, (n - 1) as nat);
    }
}

proof fn lemma_run_same_ids(s: SnapshotView, d1: Seq<DrawCommandView>, d2: Seq<DrawCommandView>, t: nat)
    requires
        draw_ids(d1) == draw_ids(d2),
    ensures
        command_run(s, d1, t) == command_run(s, d2, t),
        run_stops(s, d1, t) == run_stops(s, d2, t),
    decreases t,
{
    assert(d1.len() == draw_ids(d1).len() && d2.len() == draw_ids(d2).len());
    assert(ordered_objects(s, d1) =~= ordered_objects(s, d2)) by {
        if s.render_objects.len() == 0 {
            assert forall|i: int| 0 <= i < d1.len() implies d1[i].drawable_id == d2[i].drawable_id by {
                assert(draw_ids(d1)[i] == draw_ids(d2)[i]);
            }
        }
    }
    if t > 0 {
        lemma_run_same_ids(s, d1, d2, (t - 1) as nat);
        let obj = ordered_objects(s, d1)[t - 1];
        match obj {
            crate::model::RenderObjectView::Drawable(id) => {
                lemma_last_draw_same_ids(d1, d2, id, d1.len());
            },
            _ => {},
        }
    }
}

/// Whether building the main-pass commands comes to an end depends on the draws only
/// through their drawable ids.
pub proof fn lemma_commands_end_same_ids(s: SnapshotView, d1: Seq<DrawCommandView>, d2: Seq<DrawCommandView>)
    requires
        draw_ids(d1) == draw_ids(d2),
    ensures
        commands_end(s, d1) == commands_end(s, d2),
{
    lemma_run_same_ids(s, d1, d2, ordered_objects(s, d1).len());
    assert(d1.len() == draw_ids(d1).len() && d2.len() == draw_ids(d2).len());
    if s.render_objects.len() == 0 {
        assert(ordered_objects(s, d1).len() == ordered_objects(s, d2).len());
    }
}

proof fn lemma_drawn_rows_same(ds: Seq<DrawableView>, l1: PlanLayout, l2: PlanLayout, t: nat)
    requires
        l1.ordered_rows == l2.ordered_rows,
        l1.source_indices == l2.source_indices,
    ensures
        drawn_rows(ds, l1, t) == drawn_rows(ds, l2, t),
    decreases t,
{
    if t > 0 {
        lemma_drawn_rows_same(ds, l1, l2, (t - 1) as nat);
    }
}

/// Layouts with the same rows in the same draw order draw the same drawables.
pub proof fn lemma_draw_ids_same_rows(ds: Seq<DrawableView>, l1: PlanLayout, l2: PlanLayout)
    requires
        l1.ordered_rows == l2.ordered_rows,
        l1.source_indices == l2.source_indices,
    ensures
        draw_ids(draws_of(ds, l1)) == draw_ids(draws_of(ds, l2)),
{
    lemma_drawn_rows_same(ds, l1, l2, l1.ordered_rows.len());
    assert(draw_ids(draws_of(ds, l1)) =~= draw_ids(draws_of(ds, l2)));
}

} // verus!
