use crate::model::BlendMode;
use crate::plan::{DrawCommandView, RenderCommand, RenderPlan, RenderPlanView};
use vstd::prelude::*;

verus! {

/// What a render pass draws into: the frame's target, or one of the plan's offscreens.
#[derive(Debug, Clone, Copy, PartialEq, Eq, Structural)]
pub enum PassTarget {
    Root,
    Offscreen(usize),
}

/// How a render pass starts on its target: with the load operation the caller asked
/// for the frame (such as a clear), or keeping what the target holds.
#[derive(Debug, Clone, Copy, PartialEq, Eq, Structural)]
pub enum TargetLoad {
    First,
    Load,
}

/// One GPU step of drawing a plan into a target.
#[derive(Debug, PartialEq, Eq)]
pub enum PassAction {
    /// A pass on the root target with the first load and no draws.
    OpenRoot,
    /// A pass that draws these main draws, in order; with `copy_target`, the target is
    /// first copied for an advanced blend to read.
    Draws { target: PassTarget, load: TargetLoad, draws: Vec<usize>, copy_target: bool },
    /// Clearing an offscreen to transparent.
    ClearOffscreen(usize),
    /// Compositing an offscreen onto a target.
    Composite { offscreen: usize, target: PassTarget, load: TargetLoad },
}

pub enum PassActionView {
    OpenRoot,
    Draws { target: PassTarget, load: TargetLoad, draws: Seq<usize>, copy_target: bool },
    ClearOffscreen(usize),
    Composite { offscreen: usize, target: PassTarget, load: TargetLoad },
}

impl View for PassAction {
    type V = PassActionView;

    open spec fn view(&self) -> PassActionView {
        match self {
            PassAction::OpenRoot => PassActionView::OpenRoot,
            PassAction::Draws { target, load, draws, copy_target } => PassActionView::Draws {
                target: *target,
                load: *load,
                draws: draws@,
                copy_target: *copy_target,
            },
            PassAction::ClearOffscreen(i) => PassActionView::ClearOffscreen(*i),
            PassAction::Composite { offscreen, target, load } => PassActionView::Composite {
                offscreen: *offscreen,
                target: *target,
                load: *load,
            },
        }
    }
}

pub open spec fn actions_view(actions: Seq<PassAction>) -> Seq<PassActionView> {
    actions.map_values(|a: PassAction| a@)
}

/// The load of the next pass on the root: the first load until the root was drawn to.
pub open spec fn root_load(root_loaded: bool) -> TargetLoad {
    if root_loaded {
        TargetLoad::Load
    } else {
        TargetLoad::First
    }
}

/// Where a walk over a plan's main draws stands: the actions so far, the draws waiting
/// to be drawn, and whether the root was drawn to.
pub struct PlainWalk {
    pub actions: Seq<PassActionView>,
    pub pending: Seq<usize>,
    pub root_loaded: bool,
}

/// Draws the waiting draws into the root, if there are any.
pub open spec fn plain_flush(w: PlainWalk) -> PlainWalk {
    if w.pending.len() == 0 {
        w
    } else {
        PlainWalk {
            actions: w.actions.push(
                PassActionView::Draws {
                    target: PassTarget::Root,
                    load: root_load(w.root_loaded),
                    draws: w.pending,
                    copy_target: false,
                },
            ),
            pending: Seq::empty(),
            root_loaded: true,
        }
    }
}

/// The walk after the first `n` main draws: draws in plain blend modes wait and are
/// drawn together; a draw in an advanced mode is drawn in a pass of its own, after the
/// target is copied, once the draws before it are drawn.
pub open spec fn plain_walk(draws: Seq<DrawCommandView>, opened: bool, n: nat) -> PlainWalk
    decreases n,
{
    if n == 0 {
        PlainWalk { actions: Seq::empty(), pending: Seq::empty(), root_loaded: opened }
    } else {
        let w = plain_walk(draws, opened, (n - 1) as nat);
        let k = (n - 1) as usize;
        if draws[n - 1].blend_mode is Advanced {
            let f = plain_flush(w);
            PlainWalk {
                actions: f.actions.push(
                    PassActionView::Draws {
                        target: PassTarget::Root,
                        load: root_load(f.root_loaded),
                        draws: seq![k],
                        copy_target: true,
                    },
                ),
                pending: Seq::empty(),
                root_loaded: true,
            }
        } else {
            PlainWalk { pending: w.pending.push(k), ..w }
        }
    }
}

/// The actions that draw a plan without offscreen layers: an empty pass where there is
/// nothing to draw; else a clearing pass first when the first draw blends in an
/// advanced mode and the first load clears, then the runs of plain draws and each
/// advanced draw on its own, the first pass with the first load unless the clearing
/// pass took it.
pub open spec fn plain_actions_of(draws: Seq<DrawCommandView>, first_load_clears: bool) -> Seq<
    PassActionView,
> {
    if draws.len() == 0 {
        seq![PassActionView::OpenRoot]
    } else {
        let opened = draws[0].blend_mode is Advanced && first_load_clears;
        let prefix = if opened {
            seq![PassActionView::OpenRoot]
        } else {
            Seq::empty()
        };
        prefix + plain_flush(plain_walk(draws, opened, draws.len())).actions
    }
}

/// Where a walk over a plan's commands stands: the actions so far, the offscreens open
/// (innermost last), the draws waiting, and whether the root was drawn to.
pub struct CommandWalk {
    pub actions: Seq<PassActionView>,
    pub active: Seq<usize>,
    pub pending: Seq<usize>,
    pub root_loaded: bool,
}

/// Draws the waiting draws into the innermost open offscreen, or else into the root.
pub open spec fn command_flush(w: CommandWalk) -> CommandWalk {
    if w.pending.len() == 0 {
        w
    } else if w.active.len() > 0 {
        CommandWalk {
            actions: w.actions.push(
                PassActionView::Draws {
                    target: PassTarget::Offscreen(w.active.last()),
                    load: TargetLoad::Load,
                    draws: w.pending,
                    copy_target: false,
                },
            ),
            pending: Seq::empty(),
            ..w
        }
    } else {
        CommandWalk {
            actions: w.actions.push(
                PassActionView::Draws {
                    target: PassTarget::Root,
                    load: root_load(w.root_loaded),
                    draws: w.pending,
                    copy_target: false,
                },
            ),
            pending: Seq::empty(),
            root_loaded: true,
            ..w
        }
    }
}

/// The walk after one more command.
/// - Beginning an offscreen draws what waits, then clears the offscreen and opens it.
/// - A draw waits.
/// - Compositing an offscreen draws what waits, closes the offscreen if it is the
///   innermost open one, then composites it (if it is visible) into the innermost open
///   offscreen, or else into the root.
pub open spec fn command_step(p: RenderPlanView, visible: Seq<bool>, w: CommandWalk, c: RenderCommand) -> CommandWalk {
    match c {
        RenderCommand::BeginOffscreen { offscreen_index } => {
            let f = command_flush(w);
            if offscreen_index < p.offscreens.len() {
                CommandWalk {
                    actions: f.actions.push(PassActionView::ClearOffscreen(offscreen_index)),
                    active: f.active.push(offscreen_index),
                    ..f
                }
            } else {
                f
            }
        },
        RenderCommand::Draw { draw_index } => if draw_index < p.draws.len() {
            CommandWalk { pending: w.pending.push(draw_index), ..w }
        } else {
            w
        },
        RenderCommand::CompositeOffscreen { offscreen_index } => {
            let f = command_flush(w);
            let g = if f.active.len() > 0 && f.active.last() == offscreen_index {
                CommandWalk { active: f.active.drop_last(), ..f }
            } else {
                f
            };
            if offscreen_index < p.offscreens.len() && visible[offscreen_index as int] {
                if g.active.len() > 0 {
                    CommandWalk {
                        actions: g.actions.push(
                            PassActionView::Composite {
                                offscreen: offscreen_index,
                                target: PassTarget::Offscreen(g.active.last()),
                                load: TargetLoad::Load,
                            },
                        ),
                        ..g
                    }
                } else {
                    CommandWalk {
                        actions: g.actions.push(
                            PassActionView::Composite {
                                offscreen: offscreen_index,
                                target: PassTarget::Root,
                                load: root_load(g.root_loaded),
                            },
                        ),
                        root_loaded: true,
                        ..g
                    }
                }
            } else {
                g
            }
        },
    }
}

/// The walk after the first `n` commands.
pub open spec fn command_walk(p: RenderPlanView, visible: Seq<bool>, n: nat) -> CommandWalk
    decreases n,
{
    if n == 0 {
        CommandWalk { actions: Seq::empty(), active: Seq::empty(), pending: Seq::empty(), root_loaded: false }
    } else {
        command_step(p, visible, command_walk(p, visible, (n - 1) as nat), p.commands[n - 1])
    }
}

/// The actions that draw a plan through its commands: nothing when it has no draws;
/// otherwise the walk over every command, what still waits drawn at the end, and an
/// empty pass on the root if nothing reached it.
pub open spec fn command_actions_of(p: RenderPlanView, visible: Seq<bool>) -> Seq<PassActionView> {
    if p.draws.len() == 0 {
        Seq::empty()
    } else {
        let f = command_flush(command_walk(p, visible, p.commands.len()));
        if f.root_loaded {
            f.actions
        } else {
            f.actions.push(PassActionView::OpenRoot)
        }
    }
}

/// Whether the plan opens an offscreen layer anywhere in its commands.
pub open spec fn opens_offscreen(p: RenderPlanView) -> bool {
    exists|k: int| 0 <= k < p.commands.len() && #[trigger] p.commands[k] is BeginOffscreen
}

/// The actions that draw a plan: through its commands when it opens an offscreen layer,
/// else as plain runs of its main draws.
pub open spec fn main_actions_of(p: RenderPlanView, first_load_clears: bool, visible: Seq<bool>) -> Seq<
    PassActionView,
> {
    if opens_offscreen(p) {
        command_actions_of(p, visible)
    } else {
        plain_actions_of(p.draws, first_load_clears)
    }
}

/// The offscreens open on the GPU after the first `n` commands, innermost last: a begin
/// of an offscreen the plan has opens it, and a composite closes the innermost when it
/// names it.
pub open spec fn gpu_open_offscreens(p: RenderPlanView, n: nat) -> Seq<usize>
    decreases n,
{
    if n == 0 {
        Seq::empty()
    } else {
        let open = gpu_open_offscreens(p, (n - 1) as nat);
        match p.commands[n - 1] {
            RenderCommand::BeginOffscreen { offscreen_index } => if offscreen_index < p.offscreens.len() {
                open.push(offscreen_index)
            } else {
                open
            },
            RenderCommand::CompositeOffscreen { offscreen_index } => if open.len() > 0 && open.last()
                == offscreen_index {
                open.drop_last()
            } else {
                open
            },
            RenderCommand::Draw { .. } => open,
        }
    }
}

/// `a` is a prefix of `b`.
pub open spec fn is_prefix_of(a: Seq<PassActionView>, b: Seq<PassActionView>) -> bool {
    a.len() <= b.len() && forall|i: int| 0 <= i < a.len() ==> a[i] == b[i]
}

proof fn lemma_flush_extends(w: CommandWalk)
    ensures
        is_prefix_of(w.actions, command_flush(w).actions),
        command_flush(w).active == w.active,
{
}

proof fn lemma_step_extends(p: RenderPlanView, visible: Seq<bool>, w: CommandWalk, c: RenderCommand)
    ensures
        is_prefix_of(w.actions, command_step(p, visible, w, c).actions),
{
    lemma_flush_extends(w);
}

proof fn lemma_walk_extends(p: RenderPlanView, visible: Seq<bool>, n: nat, m: nat)
    requires
        n <= m,
    ensures
        is_prefix_of(command_walk(p, visible, n).actions, command_walk(p, visible, m).actions),
    decreases m,
{
    if n < m {
        lemma_walk_extends(p, visible, n, (m - 1) as nat);
        lemma_step_extends(p, visible, command_walk(p, visible, (m - 1) as nat), p.commands[m - 1]);
    }
}

proof fn lemma_walk_open(p: RenderPlanView, visible: Seq<bool>, n: nat)
    ensures
        command_walk(p, visible, n).active == gpu_open_offscreens(p, n),
    decreases n,
{
    if n > 0 {
        lemma_walk_open(p, visible, (n - 1) as nat);
        lemma_flush_extends(command_walk(p, visible, (n - 1) as nat));
    }
}

/// A composite of a visible offscreen goes into the innermost offscreen still open once
/// it is closed, loading what that offscreen holds; only with no offscreen open does it
/// go to the root.
pub proof fn law_composite_targets_innermost_open_layer(p: RenderPlanView, visible: Seq<bool>, t: int)
    requires
        p.draws.len() > 0,
        0 <= t < p.commands.len(),
        p.commands[t] is CompositeOffscreen,
        p.commands[t]->CompositeOffscreen_offscreen_index < p.offscreens.len(),
        visible[p.commands[t]->CompositeOffscreen_offscreen_index as int],
    ensures
        ({
            let i = p.commands[t]->CompositeOffscreen_offscreen_index;
            let open = gpu_open_offscreens(p, (t + 1) as nat);
            let actions = command_actions_of(p, visible);
            exists|a: int|
                0 <= a < actions.len() && #[trigger] actions[a] == (if open.len() > 0 {
                    PassActionView::Composite {
                        offscreen: i,
                        target: PassTarget::Offscreen(open.last()),
                        load: TargetLoad::Load,
                    }
                } else {
                    PassActionView::Composite {
                        offscreen: i,
                        target: PassTarget::Root,
                        load: root_load(
                            command_flush(command_walk(p, visible, t as nat)).root_loaded,
                        ),
                    }
                })
        }),
{
    let i = p.commands[t]->CompositeOffscreen_offscreen_index;
    let w = command_walk(p, visible, (t + 1) as nat);
    lemma_walk_open(p, visible, (t + 1) as nat);
    lemma_walk_open(p, visible, t as nat);
    lemma_flush_extends(command_walk(p, visible, t as nat));
    let a = w.actions.len() - 1;
    lemma_walk_extends(p, visible, (t + 1) as nat, p.commands.len());
    let last = command_walk(p, visible, p.commands.len());
    lemma_flush_extends(last);
    let actions = command_actions_of(p, visible);
    assert(actions[a] == w.actions[a]);
}

/// The walk that the exec state stands for.
pub open spec fn walk_of(actions: Seq<PassAction>, active: Seq<usize>, pending: Seq<usize>, root_loaded: bool) -> CommandWalk {
    CommandWalk { actions: actions_view(actions), active, pending, root_loaded }
}

/// Draws the waiting draws into the innermost open offscreen, or else into the root.
fn flush_pending(
    actions: &mut Vec<PassAction>,
    active: &Vec<usize>,
    pending: &mut Vec<usize>,
    root_loaded: &mut bool,
)
    ensures
        walk_of(final(actions)@, active@, final(pending)@, *final(root_loaded)) == command_flush(
            walk_of(old(actions)@, active@, old(pending)@, *old(root_loaded)),
        ),
{
    if pending.len() == 0 {
        return;
    }
    let ghost before = actions@;
    let mut draws: Vec<usize> = Vec::new();
    std::mem::swap(&mut draws, pending);
    if active.len() > 0 {
        let innermost = active[active.len() - 1];
        actions.push(
            PassAction::Draws {
                target: PassTarget::Offscreen(innermost),
                load: TargetLoad::Load,
                draws,
                copy_target: false,
            },
        );
    } else {
        let load = if *root_loaded {
            TargetLoad::Load
        } else {
            TargetLoad::First
        };
        actions.push(PassAction::Draws { target: PassTarget::Root, load, draws, copy_target: false });
        *root_loaded = true;
    }
    proof {
        assert(actions_view(actions@) =~= actions_view(before).push(actions@.last()@));
        assert(pending@ =~= Seq::<usize>::empty());
    }
}

proof fn lemma_plain_flush(w: PlainWalk)
    ensures
        ({
            let c = command_flush(CommandWalk { actions: w.actions, active: Seq::empty(), pending: w.pending, root_loaded: w.root_loaded });
            let f = plain_flush(w);
            c.actions == f.actions && c.pending == f.pending && c.root_loaded == f.root_loaded
        }),
{
}

/// The actions that draw a plan without offscreen layers.
fn plain_pass_actions(plan: &RenderPlan, first_load_clears: bool) -> (r: Vec<PassAction>)
    ensures
        actions_view(r@) == plain_actions_of(plan@.draws, first_load_clears),
{
    let ghost draws = plan@.draws;
    let mut actions: Vec<PassAction> = Vec::new();
    if plan.draws.len() == 0 {
        actions.push(PassAction::OpenRoot);
        assert(actions_view(actions@) =~= seq![PassActionView::OpenRoot]);
        return actions;
    }
    assert(draws[0] == plan.draws@[0]@);
    let first_advanced = match plan.draws[0].blend_mode {
        BlendMode::Advanced { .. } => true,
        _ => false,
    };
    let opened = first_advanced && first_load_clears;
    if opened {
        actions.push(PassAction::OpenRoot);
    }
    let ghost prefix = actions_view(actions@);
    assert(prefix =~= (if opened { seq![PassActionView::OpenRoot] } else { Seq::empty() }));
    let mut body: Vec<PassAction> = Vec::new();
    let mut pending: Vec<usize> = Vec::new();
    let mut root_loaded = opened;
    let no_active: Vec<usize> = Vec::new();
    let mut k: usize = 0;
    while k < plan.draws.len()
        invariant
            k <= plan.draws@.len(),
            draws == plan@.draws,
            draws.len() == plan.draws@.len(),
            no_active@ == Seq::<usize>::empty(),
            ({
                let w = plain_walk(draws, opened, k as nat);
                &&& actions_view(body@) == w.actions
                &&& pending@ == w.pending
                &&& root_loaded == w.root_loaded
            }),
        decreases plan.draws@.len() - k,
    {
        assert(draws[k as int] == plan.draws@[k as int]@);
        let advanced = match plan.draws[k].blend_mode {
            BlendMode::Advanced { .. } => true,
            _ => false,
        };
        if advanced {
            proof {
                lemma_plain_flush(plain_walk(draws, opened, k as nat));
            }
            flush_pending(&mut body, &no_active, &mut pending, &mut root_loaded);
            let load = if root_loaded {
                TargetLoad::Load
            } else {
                TargetLoad::First
            };
            let ghost before = body@;
            let mut one: Vec<usize> = Vec::new();
            one.push(k);
            body.push(PassAction::Draws { target: PassTarget::Root, load, draws: one, copy_target: true });
            root_loaded = true;
            proof {
                assert(one@ =~= seq![k]);
                assert(actions_view(body@) =~= actions_view(before).push(body@.last()@));
            }
        } else {
            pending.push(k);
        }
        k = k + 1;
    }
    proof {
        lemma_plain_flush(plain_walk(draws, opened, draws.len()));
    }
    flush_pending(&mut body, &no_active, &mut pending, &mut root_loaded);
    let ghost body_view = actions_view(body@);
    actions.append(&mut body);
    proof {
        assert(actions_view(actions@) =~= prefix + body_view);
    }
    actions
}

/// Whether the plan opens an offscreen layer anywhere in its commands.
pub fn plan_opens_offscreen(plan: &RenderPlan) -> (r: bool)
    ensures
        r == opens_offscreen(plan@),
{
    let mut k: usize = 0;
    while k < plan.commands.len()
        invariant
            k <= plan.commands@.len(),
            plan@.commands == plan.commands@,
            forall|j: int| 0 <= j < k ==> !(#[trigger] plan@.commands[j] is BeginOffscreen),
        decreases plan.commands@.len() - k,
    {
        match plan.commands[k] {
            RenderCommand::BeginOffscreen { .. } => {
                assert(plan@.commands[k as int] is BeginOffscreen);
                return true;
            },
            _ => {},
        }
        k = k + 1;
    }
    false
}

/// The actions that draw a plan through its commands; `composite_visible[i]` says
/// whether offscreen `i` is composited at all.
pub fn command_pass_actions(plan: &RenderPlan, composite_visible: &[bool]) -> (r: Vec<PassAction>)
    requires
        composite_visible@.len() == plan@.offscreens.len(),
    ensures
        actions_view(r@) == command_actions_of(plan@, composite_visible@),
{
    let ghost p = plan@;
    let ghost visible = composite_visible@;
    let mut actions: Vec<PassAction> = Vec::new();
    if plan.draws.len() == 0 {
        assert(actions_view(actions@) =~= Seq::<PassActionView>::empty());
        return actions;
    }
    let mut active: Vec<usize> = Vec::new();
    let mut pending: Vec<usize> = Vec::new();
    let mut root_loaded = false;
    let offscreen_count = plan.offscreens.len();
    let draw_count = plan.draws.len();
    assert(actions_view(actions@) =~= Seq::<PassActionView>::empty());
    let mut k: usize = 0;
    while k < plan.commands.len()
        invariant
            k <= plan.commands@.len(),
            p == plan@,
            p.commands == plan.commands@,
            visible == composite_visible@,
            visible.len() == p.offscreens.len(),
            offscreen_count == p.offscreens.len(),
            draw_count == p.draws.len(),
            walk_of(actions@, active@, pending@, root_loaded) == command_walk(p, visible, k as nat),
        decreases plan.commands@.len() - k,
    {
        match plan.commands[k] {
            RenderCommand::BeginOffscreen { offscreen_index } => {
                flush_pending(&mut actions, &active, &mut pending, &mut root_loaded);
                if offscreen_index < offscreen_count {
                    let ghost before = actions@;
                    actions.push(PassAction::ClearOffscreen(offscreen_index));
                    active.push(offscreen_index);
                    assert(actions_view(actions@) =~= actions_view(before).push(PassActionView::ClearOffscreen(offscreen_index)));
                }
            },
            RenderCommand::Draw { draw_index } => {
                if draw_index < draw_count {
                    pending.push(draw_index);
                }
            },
            RenderCommand::CompositeOffscreen { offscreen_index } => {
                flush_pending(&mut actions, &active, &mut pending, &mut root_loaded);
                if active.len() > 0 && active[active.len() - 1] == offscreen_index {
                    active.pop();
                }
                if offscreen_index < offscreen_count && composite_visible[offscreen_index] {
                    let ghost before = actions@;
                    if active.len() > 0 {
                        let parent = active[active.len() - 1];
                        actions.push(
                            PassAction::Composite {
                                offscreen: offscreen_index,
                                target: PassTarget::Offscreen(parent),
                                load: TargetLoad::Load,
                            },
                        );
                    } else {
                        let load = if root_loaded {
                            TargetLoad::Load
                        } else {
                            TargetLoad::First
                        };
                        actions.push(
                            PassAction::Composite { offscreen: offscreen_index, target: PassTarget::Root, load },
                        );
                        root_loaded = true;
                    }
                    assert(actions_view(actions@) =~= actions_view(before).push(actions@.last()@));
                }
            },
        }
        k = k + 1;
    }
    flush_pending(&mut actions, &active, &mut pending, &mut root_loaded);
    if !root_loaded {
        let ghost before = actions@;
        actions.push(PassAction::OpenRoot);
        assert(actions_view(actions@) =~= actions_view(before).push(PassActionView::OpenRoot));
    }
    actions
}

/// The actions that draw a plan into a target: through its commands when it opens an
/// offscreen layer, else as plain runs of its main draws; `first_load_clears` says
/// whether the caller's first load clears the target, and `composite_visible[i]`
/// whether offscreen `i` is composited at all.
pub fn main_pass_actions(plan: &RenderPlan, first_load_clears: bool, composite_visible: &[bool]) -> (r: Vec<
    PassAction,
>)
    requires
        composite_visible@.len() == plan@.offscreens.len(),
    ensures
        actions_view(r@) == main_actions_of(plan@, first_load_clears, composite_visible@),
{
    if plan_opens_offscreen(plan) {
        command_pass_actions(plan, composite_visible)
    } else {
        plain_pass_actions(plan, first_load_clears)
    }
}

} // verus!
