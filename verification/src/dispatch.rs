use crate::model::DrawableId;
use crate::plan::{
    commands_view, masks_view, DrawCommand, DrawCommandView, MaskPass, MaskPassView,
    ModelCtxView, ModelRenderCtx, RenderPlan, RenderPlanView,
};
use vstd::prelude::*;

verus! {

/// Above this many id comparisons a mask-draw lookup switches from a front-to-back scan
/// to a table in which a later draw of the same id replaces an earlier one.
pub const DRAW_LOOKUP_INDEX_THRESHOLD: usize = 8192;

/// What one call hands a backend, by value.
pub enum BackendEvent {
    BeginModel(ModelCtxView),
    BeginClipMasks(Seq<MaskPassView>),
    BeginClipMask(MaskPassView),
    DrawMaskDrawable(MaskPassView, DrawCommandView),
    EndClipMask(MaskPassView),
    EndClipMasks,
    BeginMainPass,
    DrawDrawable(DrawCommandView),
    EndModel,
}

/// A renderer that a plan is dispatched to. Each implementation says, through `handled`,
/// what becomes of it when it is handed an event; each call hands it one event.
pub trait Live2DRenderBackend: Sized {
    /// The backend once it has handled `event`; an implementation that keeps this
    /// default states that no call changes it.
    open spec fn handled(self, event: BackendEvent) -> Self {
        self
    }

    fn begin_model(&mut self, ctx: &ModelRenderCtx)
        ensures
            *final(self) == old(self).handled(BackendEvent::BeginModel(ctx@)),
    ;

    fn begin_clip_masks(&mut self, masks: &[MaskPass])
        ensures
            *final(self) == old(self).handled(BackendEvent::BeginClipMasks(masks_view(masks@))),
    ;

    fn begin_clip_mask(&mut self, mask: &MaskPass)
        ensures
            *final(self) == old(self).handled(BackendEvent::BeginClipMask(mask@)),
    ;

    fn draw_mask_drawable(&mut self, mask: &MaskPass, call: &DrawCommand)
        ensures
            *final(self) == old(self).handled(BackendEvent::DrawMaskDrawable(mask@, call@)),
    ;

    fn end_clip_mask(&mut self, mask: &MaskPass)
        ensures
            *final(self) == old(self).handled(BackendEvent::EndClipMask(mask@)),
    ;

    fn end_clip_masks(&mut self)
        ensures
            *final(self) == old(self).handled(BackendEvent::EndClipMasks),
    ;

    fn begin_main_pass(&mut self)
        ensures
            *final(self) == old(self).handled(BackendEvent::BeginMainPass),
    ;

    fn draw_drawable(&mut self, call: &DrawCommand)
        ensures
            *final(self) == old(self).handled(BackendEvent::DrawDrawable(call@)),
    ;

    fn end_model(&mut self)
        ensures
            *final(self) == old(self).handled(BackendEvent::EndModel),
    ;
}

/// A backend after it has handled `events`, first to last.
pub open spec fn after_events<B: Live2DRenderBackend>(b: B, events: Seq<BackendEvent>) -> B
    decreases events.len(),
{
    if events.len() == 0 {
        b
    } else {
        after_events(b, events.drop_last()).handled(events.last())
    }
}

/// A backend that appends each event it handles to a log has, after a run of events,
/// its former log followed by those events, in order; so dispatching a plan to it
/// appends exactly `dispatch_events_of` the plan.
pub proof fn law_logged_events<B: Live2DRenderBackend>(
    b: B,
    events: Seq<BackendEvent>,
    log: spec_fn(B) -> Seq<BackendEvent>,
)
    requires
        forall|x: B, e: BackendEvent| #[trigger] log(x.handled(e)) == log(x).push(e),
    ensures
        log(after_events(b, events)) == log(b) + events,
    decreases events.len(),
{
    if events.len() > 0 {
        law_logged_events(b, events.drop_last(), log);
        let before = after_events(b, events.drop_last());
        assert(log(before.handled(events.last())) == log(before).push(events.last()));
        assert(log(b) + events.drop_last().push(events.last()) =~= log(b) + events);
        assert(events.drop_last().push(events.last()) =~= events);
    } else {
        assert(log(b) + events =~= log(b));
    }
}

/// One call that dispatching a plan makes on a backend; indices point into the plan's
/// mask passes, mask draws and draws.
#[derive(Debug, Clone, Copy, PartialEq, Eq, Structural)]
pub enum BackendCall {
    BeginModel,
    BeginClipMasks,
    BeginClipMask { mask: usize },
    DrawMaskDrawable { mask: usize, draw: usize },
    EndClipMask { mask: usize },
    EndClipMasks,
    BeginMainPass,
    DrawDrawable { draw: usize },
    EndModel,
}

/// Number of mask drawables named over the first `n` mask passes.
pub open spec fn mask_id_total(masks: Seq<MaskPassView>, n: nat) -> nat
    decreases n,
{
    if n == 0 {
        0
    } else {
        mask_id_total(masks, (n - 1) as nat) + masks[n - 1].drawable_ids.len()
    }
}

/// Whether mask-draw lookups of this plan use the table, in which the last draw of an
/// id wins; otherwise the first draw of an id is found.
pub open spec fn lookup_uses_table(p: RenderPlanView) -> bool {
    let product = mask_id_total(p.masks, p.masks.len()) * p.mask_draws.len();
    product > DRAW_LOOKUP_INDEX_THRESHOLD
}

/// The first (or, with `last`, the last) mask draw for this id among the first `n`.
pub open spec fn find_draw(draws: Seq<DrawCommandView>, id: Seq<char>, last: bool, n: nat) -> Option<
    usize,
>
    decreases n,
{
    if n == 0 {
        None
    } else {
        let earlier = find_draw(draws, id, last, (n - 1) as nat);
        if draws[n - 1].drawable_id == id && (last || earlier is None) {
            Some((n - 1) as usize)
        } else {
            earlier
        }
    }
}

/// Calls for the first `k` ids of mask pass `i`: a mask draw for each id that has one.
pub open spec fn mask_id_calls(p: RenderPlanView, i: int, k: nat) -> Seq<BackendCall>
    decreases k,
{
    if k == 0 {
        Seq::empty()
    } else {
        let earlier = mask_id_calls(p, i, (k - 1) as nat);
        match find_draw(
            p.mask_draws,
            p.masks[i].drawable_ids[k - 1],
            lookup_uses_table(p),
            p.mask_draws.len(),
        ) {
            Some(d) => earlier.push(BackendCall::DrawMaskDrawable { mask: i as usize, draw: d }),
            None => earlier,
        }
    }
}

/// Calls for the first `n` mask passes.
pub open spec fn mask_pass_calls(p: RenderPlanView, n: nat) -> Seq<BackendCall>
    decreases n,
{
    if n == 0 {
        Seq::empty()
    } else {
        let i = n - 1;
        mask_pass_calls(p, (n - 1) as nat).push(BackendCall::BeginClipMask { mask: i as usize })
            + mask_id_calls(p, i, p.masks[i].drawable_ids.len()).push(
            BackendCall::EndClipMask { mask: i as usize },
        )
    }
}

/// The calls that dispatching a plan makes, in order: the model, the clip masks (if
/// any), then the main pass with every draw.
pub open spec fn dispatch_calls_of(p: RenderPlanView) -> Seq<BackendCall> {
    let masks = if p.masks.len() == 0 {
        Seq::empty()
    } else {
        seq![BackendCall::BeginClipMasks] + mask_pass_calls(p, p.masks.len()).push(
            BackendCall::EndClipMasks,
        )
    };
    seq![BackendCall::BeginModel] + masks + seq![BackendCall::BeginMainPass] + Seq::new(
        p.draws.len(),
        |d: int| BackendCall::DrawDrawable { draw: d as usize },
    ).push(BackendCall::EndModel)
}

/// A call's indices point into the plan's mask passes, mask draws and draws.
pub open spec fn call_in_range(p: RenderPlanView, c: BackendCall) -> bool {
    match c {
        BackendCall::BeginClipMask { mask } => mask < p.masks.len(),
        BackendCall::DrawMaskDrawable { mask, draw } => mask < p.masks.len() && draw
            < p.mask_draws.len(),
        BackendCall::EndClipMask { mask } => mask < p.masks.len(),
        BackendCall::DrawDrawable { draw } => draw < p.draws.len(),
        _ => true,
    }
}

/// The event that a call hands the backend: the model, mask passes and draws that its
/// indices point at.
pub open spec fn event_of(p: RenderPlanView, c: BackendCall) -> BackendEvent {
    match c {
        BackendCall::BeginModel => BackendEvent::BeginModel(p.model),
        BackendCall::BeginClipMasks => BackendEvent::BeginClipMasks(p.masks),
        BackendCall::BeginClipMask { mask } => BackendEvent::BeginClipMask(p.masks[mask as int]),
        BackendCall::DrawMaskDrawable { mask, draw } => BackendEvent::DrawMaskDrawable(
            p.masks[mask as int],
            p.mask_draws[draw as int],
        ),
        BackendCall::EndClipMask { mask } => BackendEvent::EndClipMask(p.masks[mask as int]),
        BackendCall::EndClipMasks => BackendEvent::EndClipMasks,
        BackendCall::BeginMainPass => BackendEvent::BeginMainPass,
        BackendCall::DrawDrawable { draw } => BackendEvent::DrawDrawable(p.draws[draw as int]),
        BackendCall::EndModel => BackendEvent::EndModel,
    }
}

/// The events that dispatching a plan hands the backend, in order.
pub open spec fn dispatch_events_of(p: RenderPlanView) -> Seq<BackendEvent> {
    dispatch_calls_of(p).map_values(|c: BackendCall| event_of(p, c))
}

/// Whether the mask drawables named over all mask passes can be counted in a `usize`.
pub fn mask_ids_fit(masks: &Vec<MaskPass>) -> (r: bool)
    ensures
        r == (mask_id_total(crate::plan::masks_view(masks@), masks@.len()) <= usize::MAX),
{
    let ghost mv = crate::plan::masks_view(masks@);
    let mut total: usize = 0;
    let mut i: usize = 0;
    while i < masks.len()
        invariant
            i <= masks@.len(),
            mv == crate::plan::masks_view(masks@),
            total == mask_id_total(mv, i as nat),
        decreases masks@.len() - i,
    {
        assert(mv[i as int].drawable_ids.len() == masks@[i as int].drawable_ids@.len());
        match total.checked_add(masks[i].drawable_ids.len()) {
            Some(next) => {
                total = next;
            },
            None => {
                proof {
                    lemma_mask_id_total_monotone(mv, (i + 1) as nat, masks@.len());
                }
                return false;
            },
        }
        i = i + 1;
    }
    true
}

/// Number of mask drawables named over all mask passes.
pub fn mask_drawable_count(masks: &Vec<MaskPass>) -> (r: usize)
    requires
        mask_id_total(crate::plan::masks_view(masks@), masks@.len()) <= usize::MAX,
    ensures
        r == mask_id_total(crate::plan::masks_view(masks@), masks@.len()),
{
    let ghost mv = crate::plan::masks_view(masks@);
    let mut total: usize = 0;
    let mut i: usize = 0;
    while i < masks.len()
        invariant
            i <= masks@.len(),
            mv == crate::plan::masks_view(masks@),
            mask_id_total(mv, masks@.len()) <= usize::MAX,
            total == mask_id_total(mv, i as nat),
        decreases masks@.len() - i,
    {
        proof {
            lemma_mask_id_total_monotone(mv, (i + 1) as nat, masks@.len());
        }
        assert(mv[i as int].drawable_ids.len() == masks@[i as int].drawable_ids@.len());
        total = total + masks[i].drawable_ids.len();
        i = i + 1;
    }
    total
}

/// Whether the plan's mask-draw lookups go through the table.
pub(crate) fn plan_uses_lookup_table(plan: &RenderPlan) -> (r: bool)
    requires
        mask_id_total(plan@.masks, plan@.masks.len()) <= usize::MAX,
    ensures
        r == lookup_uses_table(plan@),
{
    let mask_drawables = mask_drawable_count(&plan.masks);
    match mask_drawables.checked_mul(plan.mask_draws.len()) {
        Some(product) => product > DRAW_LOOKUP_INDEX_THRESHOLD,
        None => true,
    }
}

pub proof fn lemma_mask_id_total_monotone(masks: Seq<MaskPassView>, a: nat, b: nat)
    requires
        a <= b,
    ensures
        mask_id_total(masks, a) <= mask_id_total(masks, b),
    decreases b,
{
    if a < b {
        lemma_mask_id_total_monotone(masks, a, (b - 1) as nat);
    }
}

pub(crate) fn find_draw_exec(draws: &Vec<DrawCommand>, id: &DrawableId, last: bool) -> (r: Option<usize>)
    ensures
        r == find_draw(commands_view(draws@), id@, last, draws@.len()),
{
    let ghost dv = commands_view(draws@);
    let mut found: Option<usize> = None;
    let mut n: usize = 0;
    while n < draws.len()
        invariant
            n <= draws@.len(),
            dv == commands_view(draws@),
            found == find_draw(dv, id@, last, n as nat),
        decreases draws@.len() - n,
    {
        if draws[n].drawable_id.same_as(id) && (last || found.is_none()) {
            found = Some(n);
        }
        n = n + 1;
    }
    found
}

impl RenderPlan {
    /// The calls that dispatching this plan makes on a backend.
    pub fn dispatch_calls(&self) -> (r: Vec<BackendCall>)
        requires
            mask_id_total(self@.masks, self@.masks.len()) <= usize::MAX,
        ensures
            r@ == dispatch_calls_of(self@),
    {
        let ghost p = self@;
        let mut calls: Vec<BackendCall> = Vec::new();
        calls.push(BackendCall::BeginModel);
        if self.masks.len() > 0 {
            let mask_drawables = mask_drawable_count(&self.masks);
            let use_table = match mask_drawables.checked_mul(self.mask_draws.len()) {
                Some(product) => product > DRAW_LOOKUP_INDEX_THRESHOLD,
                None => true,
            };
            assert(use_table == lookup_uses_table(p));
            calls.push(BackendCall::BeginClipMasks);
            let ghost start = calls@;
            let mut i: usize = 0;
            while i < self.masks.len()
                invariant
                    i <= self.masks@.len(),
                    p == self@,
                    use_table == lookup_uses_table(p),
                    calls@ == start + mask_pass_calls(p, i as nat),
                decreases self.masks@.len() - i,
            {
                let ghost before = calls@;
                calls.push(BackendCall::BeginClipMask { mask: i });
                let ghost mid = calls@;
                let ids = &self.masks[i].drawable_ids;
                assert(p.masks[i as int].drawable_ids == crate::model::ids_view(ids@));
                let mut k: usize = 0;
                while k < ids.len()
                    invariant
                        k <= ids@.len(),
                        i < self.masks@.len(),
                        p == self@,
                        ids == &self.masks@[i as int].drawable_ids,
                        p.masks[i as int].drawable_ids == crate::model::ids_view(ids@),
                        use_table == lookup_uses_table(p),
                        calls@ == mid + mask_id_calls(p, i as int, k as nat),
                    decreases ids@.len() - k,
                {
                    match find_draw_exec(&self.mask_draws, &ids[k], use_table) {
                        Some(d) => {
                            calls.push(BackendCall::DrawMaskDrawable { mask: i, draw: d });
                        },
                        None => {},
                    }
                    k = k + 1;
                    assert(calls@ =~= mid + mask_id_calls(p, i as int, k as nat));
                }
                calls.push(BackendCall::EndClipMask { mask: i });
                i = i + 1;
                assert(calls@ =~= start + mask_pass_calls(p, i as nat));
            }
            calls.push(BackendCall::EndClipMasks);
        }
        calls.push(BackendCall::BeginMainPass);
        let ghost before_draws = calls@;
        let mut d: usize = 0;
        while d < self.draws.len()
            invariant
                d <= self.draws@.len(),
                calls@ == before_draws + Seq::new(d as nat, |t: int| BackendCall::DrawDrawable { draw: t as usize }),
            decreases self.draws@.len() - d,
        {
            calls.push(BackendCall::DrawDrawable { draw: d });
            d = d + 1;
            assert(calls@ =~= before_draws + Seq::new(d as nat, |t: int| BackendCall::DrawDrawable { draw: t as usize }));
        }
        calls.push(BackendCall::EndModel);
        assert(calls@ =~= dispatch_calls_of(p));
        calls
    }

    /// Dispatches the plan to a backend: the calls of `dispatch_calls`, in order, each
    /// handing the backend the model, mask pass or draw that the call points at.
    pub fn dispatch<B: Live2DRenderBackend>(&self, backend: &mut B)
        requires
            mask_id_total(self@.masks, self@.masks.len()) <= usize::MAX,
        ensures
            *final(backend) == after_events(*old(backend), dispatch_events_of(self@)),
    {
        let ghost p = self@;
        let ghost start = *backend;
        let calls = self.dispatch_calls();
        let mask_count = self.masks.len();
        let mask_draw_count = self.mask_draws.len();
        proof {
            assert(p.masks.len() == mask_count && p.mask_draws.len() == mask_draw_count);
            crate::guarantees::lemma_dispatch_calls_in_range(p);
        }
        let ghost events = dispatch_events_of(p);
        let mut t: usize = 0;
        while t < calls.len()
            invariant
                t <= calls@.len(),
                p == self@,
                calls@ == dispatch_calls_of(p),
                events == dispatch_events_of(p),
                forall|u: int| 0 <= u < calls@.len() ==> call_in_range(p, #[trigger] calls@[u]),
                *backend == after_events(start, events.take(t as int)),
            decreases calls@.len() - t,
        {
            let ghost before = *backend;
            assert(call_in_range(p, calls@[t as int]));
            match calls[t] {
                BackendCall::BeginModel => backend.begin_model(&self.model),
                BackendCall::BeginClipMasks => backend.begin_clip_masks(self.masks.as_slice()),
                BackendCall::BeginClipMask { mask } => backend.begin_clip_mask(&self.masks[mask]),
                BackendCall::DrawMaskDrawable { mask, draw } => {
                    backend.draw_mask_drawable(&self.masks[mask], &self.mask_draws[draw]);
                },
                BackendCall::EndClipMask { mask } => backend.end_clip_mask(&self.masks[mask]),
                BackendCall::EndClipMasks => backend.end_clip_masks(),
                BackendCall::BeginMainPass => backend.begin_main_pass(),
                BackendCall::DrawDrawable { draw } => backend.draw_drawable(&self.draws[draw]),
                BackendCall::EndModel => backend.end_model(),
            }
            proof {
                assert(events.take(t + 1).drop_last() =~= events.take(t as int));
                assert(events[t as int] == event_of(p, calls@[t as int]));
                assert(*backend == before.handled(events[t as int]));
            }
            t = t + 1;
        }
        proof {
            assert(events.take(t as int) =~= events);
        }
    }
}

} // verus!
