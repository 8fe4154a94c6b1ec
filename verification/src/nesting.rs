use crate::model::SnapshotView;
use crate::plan::{
    close_offscreens, command_run, command_step, drain_offscreens, offscreen_owner, ordered_objects,
    parent_of_part, part_descends_from, render_commands_of, CommandState, DrawCommandView,
    RenderCommand,
};
use vstd::prelude::*;

verus! {

/// The offscreens a command stream has open after its first `n` commands, innermost
/// last: a begin opens one, and a composite closes the innermost when it names it.
pub open spec fn open_offscreens(cmds: Seq<RenderCommand>, n: nat) -> Seq<usize>
    decreases n,
{
    if n == 0 {
        Seq::empty()
    } else {
        let open = open_offscreens(cmds, (n - 1) as nat);
        match cmds[n - 1] {
            RenderCommand::BeginOffscreen { offscreen_index } => open.push(offscreen_index),
            RenderCommand::CompositeOffscreen { offscreen_index } => if open.len() > 0 && open.last()
                == offscreen_index {
                open.drop_last()
            } else {
                open
            },
            RenderCommand::Draw { .. } => open,
        }
    }
}

/// The part that offscreen `k`'s layer sits in: the parent of its owner part.
pub open spec fn layer_parent(s: SnapshotView, k: usize) -> Option<usize> {
    match s.offscreens[k as int].owner_part_index {
        Some(owner) => parent_of_part(s.part_parent_indices, owner),
        None => None,
    }
}

/// Every begin in `cmds` opens its layer inside the innermost open layer only when that
/// layer's owner part is the new layer's part or one of its ancestors.
pub open spec fn begins_nest_in_owners(s: SnapshotView, cmds: Seq<RenderCommand>) -> bool {
    forall|t: int|
        0 <= t < cmds.len() && #[trigger] cmds[t] is BeginOffscreen ==> {
            let k = cmds[t]->BeginOffscreen_offscreen_index;
            let open = open_offscreens(cmds, t as nat);
            open.len() > 0 ==> part_descends_from(
                s.part_parent_indices,
                layer_parent(s, k),
                offscreen_owner(s, open.last()),
            )
        }
}

/// A state's commands have its open offscreens open, and nest their begins properly.
pub open spec fn state_consistent(s: SnapshotView, st: CommandState) -> bool {
    &&& open_offscreens(st.commands, st.commands.len()) == st.active
    &&& begins_nest_in_owners(s, st.commands)
}

proof fn lemma_open_prefix(cmds: Seq<RenderCommand>, x: RenderCommand, t: nat)
    requires
        t <= cmds.len(),
    ensures
        open_offscreens(cmds.push(x), t) == open_offscreens(cmds, t),
    decreases t,
{
    if t > 0 {
        lemma_open_prefix(cmds, x, (t - 1) as nat);
        assert(cmds.push(x)[t - 1] == cmds[t - 1]);
    }
}

/// Pushing a command other than a begin keeps every earlier begin properly nested.
proof fn lemma_push_keeps_begins(s: SnapshotView, cmds: Seq<RenderCommand>, x: RenderCommand)
    requires
        begins_nest_in_owners(s, cmds),
        !(x is BeginOffscreen),
    ensures
        begins_nest_in_owners(s, cmds.push(x)),
{
    let c2 = cmds.push(x);
    assert forall|t: int| 0 <= t < c2.len() && #[trigger] c2[t] is BeginOffscreen implies {
        let k = c2[t]->BeginOffscreen_offscreen_index;
        let open = open_offscreens(c2, t as nat);
        open.len() > 0 ==> part_descends_from(s.part_parent_indices, layer_parent(s, k), offscreen_owner(s, open.last()))
    } by {
        assert(t < cmds.len());
        assert(c2[t] == cmds[t]);
        lemma_open_prefix(cmds, x, t as nat);
    }
}

/// Closing offscreens keeps a state consistent, and stops at an offscreen whose owner
/// part the target lies in, or with none open.
proof fn lemma_close_consistent(s: SnapshotView, target: Option<usize>, st: CommandState)
    requires
        state_consistent(s, st),
    ensures
        state_consistent(s, close_offscreens(s, target, st)),
        close_offscreens(s, target, st).active.len() > 0 ==> part_descends_from(
            s.part_parent_indices,
            target,
            offscreen_owner(s, close_offscreens(s, target, st).active.last()),
        ),
    decreases st.active.len(),
{
    if st.active.len() > 0 {
        let k = st.active.last();
        if !part_descends_from(s.part_parent_indices, target, offscreen_owner(s, k)) {
            let x = RenderCommand::CompositeOffscreen { offscreen_index: k };
            let next = CommandState { commands: st.commands.push(x), active: st.active.drop_last() };
            lemma_push_keeps_begins(s, st.commands, x);
            lemma_open_prefix(st.commands, x, st.commands.len());
            assert(st.commands.push(x)[st.commands.len() as int] == x);
            assert(open_offscreens(next.commands, next.commands.len()) == next.active);
            lemma_close_consistent(s, target, next);
        }
    }
}

/// Draining the open offscreens keeps the commands' begins properly nested.
proof fn lemma_drain_consistent(s: SnapshotView, st: CommandState)
    requires
        state_consistent(s, st),
    ensures
        begins_nest_in_owners(s, drain_offscreens(st)),
    decreases st.active.len(),
{
    if st.active.len() > 0 {
        let x = RenderCommand::CompositeOffscreen { offscreen_index: st.active.last() };
        let next = CommandState { commands: st.commands.push(x), active: st.active.drop_last() };
        lemma_push_keeps_begins(s, st.commands, x);
        lemma_open_prefix(st.commands, x, st.commands.len());
        assert(st.commands.push(x)[st.commands.len() as int] == x);
        lemma_drain_consistent(s, next);
    }
}

proof fn lemma_run_consistent(s: SnapshotView, draws: Seq<DrawCommandView>, n: nat)
    ensures
        state_consistent(s, command_run(s, draws, n)),
    decreases n,
{
    if n > 0 {
        lemma_run_consistent(s, draws, (n - 1) as nat);
        let st = command_run(s, draws, (n - 1) as nat);
        let object = ordered_objects(s, draws)[n - 1];
        match object {
            crate::model::RenderObjectView::Drawable(id) => match crate::plan::last_draw_with_id(
                draws,
                id,
                draws.len(),
            ) {
                None => {},
                Some(di) => {
                    let target = crate::plan::drawable_parent(s.drawables, id, s.drawables.len());
                    lemma_close_consistent(s, target, st);
                    let st2 = close_offscreens(s, target, st);
                    let x = RenderCommand::Draw { draw_index: di };
                    lemma_push_keeps_begins(s, st2.commands, x);
                    lemma_open_prefix(st2.commands, x, st2.commands.len());
                    assert(st2.commands.push(x)[st2.commands.len() as int] == x);
                },
            },
            crate::model::RenderObjectView::Offscreen(k) => if k < s.offscreens.len() {
                let target = layer_parent(s, k);
                lemma_close_consistent(s, target, st);
                let st2 = close_offscreens(s, target, st);
                let x = RenderCommand::BeginOffscreen { offscreen_index: k };
                let c2 = st2.commands.push(x);
                lemma_open_prefix(st2.commands, x, st2.commands.len());
                assert(c2[st2.commands.len() as int] == x);
                assert forall|t: int| 0 <= t < c2.len() && #[trigger] c2[t] is BeginOffscreen implies {
                    let kk = c2[t]->BeginOffscreen_offscreen_index;
                    let open = open_offscreens(c2, t as nat);
                    open.len() > 0 ==> part_descends_from(
                        s.part_parent_indices,
                        layer_parent(s, kk),
                        offscreen_owner(s, open.last()),
                    )
                } by {
                    lemma_open_prefix(st2.commands, x, t as nat);
                    if t < st2.commands.len() {
                        assert(c2[t] == st2.commands[t]);
                    }
                }
                assert(command_step(s, draws, st, object) == CommandState { commands: c2, active: st2.active.push(k) });
            },
        }
    }
}

/// Offscreen layers nest only along the part tree: when the main pass begins the layer
/// of offscreen `k`, the innermost layer still open (if any) is owned by the part that
/// `k`'s layer sits in or by one of its ancestors; every open layer owned elsewhere has
/// been composited before, so layers of sibling parts never nest.
pub proof fn law_offscreens_nest_along_part_tree(s: SnapshotView, draws: Seq<DrawCommandView>, t: int)
    requires
        0 <= t < render_commands_of(s, draws).len(),
        render_commands_of(s, draws)[t] is BeginOffscreen,
    ensures
        ({
            let cmds = render_commands_of(s, draws);
            let k = cmds[t]->BeginOffscreen_offscreen_index;
            let open = open_offscreens(cmds, t as nat);
            open.len() > 0 ==> part_descends_from(
                s.part_parent_indices,
                layer_parent(s, k),
                offscreen_owner(s, open.last()),
            )
        }),
{
    if s.offscreens.len() == 0 {
        let cmds = render_commands_of(s, draws);
        assert(cmds[t] == RenderCommand::Draw { draw_index: t as usize });
    } else {
        lemma_run_consistent(s, draws, ordered_objects(s, draws).len());
        lemma_drain_consistent(s, command_run(s, draws, ordered_objects(s, draws).len()));
        let cmds = render_commands_of(s, draws);
        assert(cmds[t] is BeginOffscreen);
    }
}

} // verus!
