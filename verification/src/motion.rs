use vstd::prelude::*;

verus! {

/// Where playback of a motion player stands.
#[derive(Debug, Clone, Copy, PartialEq, Eq, Structural)]
pub enum MotionPlaybackState {
    Stopped,
    Playing,
    Paused,
    Finished,
}

/// Whether a requested motion started at once or waits in the queue.
#[derive(Debug, Clone, Copy, PartialEq, Eq, Structural)]
pub enum MotionStartResult {
    Started,
    Queued,
}

/// How urgently a motion wants to play: a request may interrupt an active motion of
/// lower or equal priority.
#[derive(Debug, Clone, Copy, PartialEq, Eq, Structural, PartialOrd, Ord)]
pub struct MotionPriority(pub u8);

/// Priority of idle motions.
pub const IDLE_PRIORITY: u8 = 0;

/// Priority of ordinary requests.
pub const NORMAL_PRIORITY: u8 = 100;

/// Priority of requests that interrupt anything else.
pub const FORCE_PRIORITY: u8 = 200;

impl MotionPriority {
    pub fn idle() -> (r: Self)
        ensures
            r.0 == IDLE_PRIORITY,
    {
        MotionPriority(IDLE_PRIORITY)
    }

    pub fn normal() -> (r: Self)
        ensures
            r.0 == NORMAL_PRIORITY,
    {
        MotionPriority(NORMAL_PRIORITY)
    }

    pub fn force() -> (r: Self)
        ensures
            r.0 == FORCE_PRIORITY,
    {
        MotionPriority(FORCE_PRIORITY)
    }
}

/// Names a layer of a motion mixer.
#[derive(Debug, Hash)]
pub struct MotionLayerId(pub String);

impl View for MotionLayerId {
    type V = Seq<char>;

    open spec fn view(&self) -> Seq<char> {
        self.0@
    }
}

impl Clone for MotionLayerId {
    fn clone(&self) -> (r: Self)
        ensures
            r@ == self@,
    {
        MotionLayerId(self.0.clone())
    }
}

impl PartialEq for MotionLayerId {
    fn eq(&self, other: &Self) -> (r: bool) {
        self.0 == other.0
    }
}

impl vstd::std_specs::cmp::PartialEqSpecImpl for MotionLayerId {
    open spec fn obeys_eq_spec() -> bool {
        true
    }

    open spec fn eq_spec(&self, other: &Self) -> bool {
        self@ == other@
    }
}

impl Eq for MotionLayerId {}

impl From<String> for MotionLayerId {
    fn from(value: String) -> (r: Self)
        ensures
            r@ == value@,
    {
        MotionLayerId(value)
    }
}

impl vstd::std_specs::convert::FromSpecImpl<String> for MotionLayerId {
    open spec fn obeys_from_spec() -> bool {
        true
    }

    open spec fn from_spec(v: String) -> Self {
        MotionLayerId(v)
    }
}

impl From<&str> for MotionLayerId {
    fn from(value: &str) -> (r: Self)
        ensures
            r@ == value@,
    {
        MotionLayerId(value.to_owned())
    }
}

impl vstd::std_specs::convert::FromSpecImpl<&str> for MotionLayerId {
    open spec fn obeys_from_spec() -> bool {
        false
    }

    open spec fn from_spec(v: &str) -> Self {
        arbitrary()
    }
}

/// How a mixer layer combines with the layers below it.
#[derive(Debug, Clone, Copy, PartialEq, Eq, Structural)]
pub enum MotionBlendMode {
    Override,
    Additive,
}

/// What a motion scheduler holds, as mathematical values.
pub struct SchedulerView<M> {
    pub active: Option<(M, u8)>,
    pub queued: Seq<(M, u8)>,
    pub idle: Option<M>,
    pub state: MotionPlaybackState,
}

/// Whether queued requests are in non-increasing priority.
pub open spec fn priority_ordered<M>(queued: Seq<(M, u8)>) -> bool {
    forall|i: int, j: int| 0 <= i <= j < queued.len() ==> queued[i].1 >= queued[j].1
}

/// The position a request of priority `p` takes in the queue: after every request of
/// priority `p` or more.
pub open spec fn queue_position<M>(queued: Seq<(M, u8)>, p: u8) -> int
    decreases queued.len(),
{
    if queued.len() == 0 {
        0
    } else if queued[0].1 < p {
        0
    } else {
        1 + queue_position(queued.drop_first(), p)
    }
}

/// Whether a state has no motion running.
pub open spec fn is_idle_state(state: MotionPlaybackState) -> bool {
    state == MotionPlaybackState::Stopped || state == MotionPlaybackState::Finished
}

/// Whether a request of priority `p` may start now.
pub open spec fn may_start<M>(s: SchedulerView<M>, p: u8) -> bool {
    match s.active {
        None => true,
        Some(active) => is_idle_state(s.state) || p >= active.1,
    }
}

/// A scheduler after a pause: only a playing one pauses.
pub open spec fn paused<M>(s: SchedulerView<M>) -> SchedulerView<M> {
    SchedulerView {
        state: if s.state == MotionPlaybackState::Playing {
            MotionPlaybackState::Paused
        } else {
            s.state
        },
        ..s
    }
}

/// A scheduler after a resume: only a paused one plays again.
pub open spec fn resumed<M>(s: SchedulerView<M>) -> SchedulerView<M> {
    SchedulerView {
        state: if s.state == MotionPlaybackState::Paused {
            MotionPlaybackState::Playing
        } else {
            s.state
        },
        ..s
    }
}

/// Resuming a paused scheduler undoes the pause: a playing scheduler that is paused and
/// resumed is as it was.
pub proof fn law_resume_undoes_pause<M>(s: SchedulerView<M>)
    requires
        s.state == MotionPlaybackState::Playing,
    ensures
        resumed(paused(s)) == s,
{
}

/// Whether a request starts at once (as `request_motion` and `can_start_priority` say):
/// with no active motion, or a stopped or finished one, every request starts; while the
/// active motion of priority `q` plays or is paused, a request of priority `p` starts
/// exactly when `p >= q`; so pausing never lets a lower priority displace the motion.
pub proof fn law_running_motion_yields_only_to_equal_or_higher_priority<M>(s: SchedulerView<M>, p: u8)
    ensures
        s.active is None ==> may_start(s, p),
        s.active is Some && (s.state == MotionPlaybackState::Stopped || s.state
            == MotionPlaybackState::Finished) ==> may_start(s, p),
        s.active is Some && (s.state == MotionPlaybackState::Playing || s.state
            == MotionPlaybackState::Paused) ==> (may_start(s, p) <==> p >= s.active.unwrap().1),
        s.active is Some && s.state == MotionPlaybackState::Playing && p < s.active.unwrap().1 ==> !may_start(
            paused(s),
            p,
        ),
{
}

/// A request joins the queue behind every request of equal or higher priority and ahead
/// of every request of lower priority, and the queue stays in priority order.
pub proof fn law_enqueue_orders_by_priority_then_arrival<M>(queued: Seq<(M, u8)>, motion: M, p: u8)
    requires
        priority_ordered(queued),
    ensures
        ({
            let k = queue_position(queued, p);
            let q = queued.insert(k, (motion, p));
            &&& priority_ordered(q)
            &&& q[k] == (motion, p)
            &&& forall|i: int| 0 <= i < k ==> q[i] == queued[i] && q[i].1 >= p
            &&& forall|i: int| k < i < q.len() ==> q[i] == queued[i - 1] && q[i].1 < p
        }),
{
    lemma_queue_position_bounds(queued, p);
    let k = queue_position(queued, p);
    let q = queued.insert(k, (motion, p));
    assert forall|i: int| k < i < q.len() implies q[i] == queued[i - 1] && q[i].1 < p by {
        assert(queued[k].1 < p);
        assert(queued[k].1 >= queued[i - 1].1);
    }
}

/// Decides which motion plays: the active one, a queue ordered by priority, and an
/// idle motion to fall back to. `M` is whatever the caller plays.
#[derive(Debug, Clone)]
pub struct MotionScheduler<M> {
    active: Option<(M, MotionPriority)>,
    queued: Vec<(M, MotionPriority)>,
    idle: Option<M>,
    state: MotionPlaybackState,
}

impl<M> View for MotionScheduler<M> {
    type V = SchedulerView<M>;

    closed spec fn view(&self) -> SchedulerView<M> {
        SchedulerView {
            active: match self.active {
                Some(a) => Some((a.0, a.1.0)),
                None => None,
            },
            queued: self.queued@.map_values(|q: (M, MotionPriority)| (q.0, q.1.0)),
            idle: self.idle,
            state: self.state,
        }
    }
}

proof fn lemma_queue_position_bounds<M>(queued: Seq<(M, u8)>, p: u8)
    ensures
        0 <= queue_position(queued, p) <= queued.len(),
        forall|i: int| 0 <= i < queue_position(queued, p) ==> queued[i].1 >= p,
        queue_position(queued, p) < queued.len() ==> queued[queue_position(queued, p)].1 < p,
    decreases queued.len(),
{
    if queued.len() > 0 && queued[0].1 >= p {
        lemma_queue_position_bounds(queued.drop_first(), p);
        assert forall|i: int| 0 <= i < queue_position(queued, p) implies queued[i].1 >= p by {
            if i > 0 {
                assert(queued[i] == queued.drop_first()[i - 1]);
            }
        }
    }
}

proof fn lemma_queue_position_first_lower<M>(queued: Seq<(M, u8)>, p: u8, k: int)
    requires
        0 <= k <= queued.len(),
        forall|i: int| 0 <= i < k ==> queued[i].1 >= p,
        k < queued.len() ==> queued[k].1 < p,
    ensures
        queue_position(queued, p) == k,
    decreases queued.len(),
{
    if queued.len() > 0 && k > 0 {
        lemma_queue_position_first_lower(queued.drop_first(), p, k - 1);
    }
}

impl<M> MotionScheduler<M> {
    /// Whether the queue is in priority order.
    pub closed spec fn wf(&self) -> bool {
        priority_ordered(self@.queued)
    }

    /// Nothing playing, nothing queued, no idle motion.
    pub fn new() -> (r: Self)
        ensures
            r.wf(),
            r@.active is None,
            r@.queued == Seq::<(M, u8)>::empty(),
            r@.idle is None,
            r@.state == MotionPlaybackState::Stopped,
    {
        let r = MotionScheduler { active: None, queued: Vec::new(), idle: None, state: MotionPlaybackState::Stopped };
        assert(r@.queued =~= Seq::<(M, u8)>::empty());
        r
    }

    pub fn state(&self) -> (r: MotionPlaybackState)
        ensures
            r == self@.state,
    {
        self.state
    }

    pub fn queued_motion_count(&self) -> (r: usize)
        ensures
            r == self@.queued.len(),
    {
        self.queued.len()
    }

    /// The motion playing now, if any.
    pub fn active(&self) -> (r: Option<&M>)
        ensures
            match self@.active {
                Some(a) => r == Some(&a.0),
                None => r is None,
            },
    {
        match &self.active {
            Some(a) => Some(&a.0),
            None => None,
        }
    }

    /// Whether a request of this priority would start at once.
    pub fn can_start_priority(&self, priority: MotionPriority) -> (r: bool)
        ensures
            r == may_start(self@, priority.0),
    {
        match &self.active {
            None => true,
            Some(active) => matches!(self.state, MotionPlaybackState::Stopped | MotionPlaybackState::Finished)
                || priority.0 >= active.1.0,
        }
    }

    /// Puts a request in the queue after every request of equal or higher priority.
    pub fn enqueue(&mut self, motion: M, priority: MotionPriority)
        requires
            old(self).wf(),
        ensures
            final(self).wf(),
            final(self)@.queued == old(self)@.queued.insert(
                queue_position(old(self)@.queued, priority.0),
                (motion, priority.0),
            ),
            final(self)@.active == old(self)@.active,
            final(self)@.idle == old(self)@.idle,
            final(self)@.state == old(self)@.state,
    {
        let ghost before = self@.queued;
        let mut index: usize = 0;
        while index < self.queued.len() && self.queued[index].1.0 >= priority.0
            invariant
                index <= self.queued@.len(),
                self@.queued == before,
                forall|i: int| 0 <= i < index ==> before[i].1 >= priority.0,
            decreases self.queued@.len() - index,
        {
            index = index + 1;
        }
        proof {
            lemma_queue_position_first_lower(before, priority.0, index as int);
        }
        self.queued.insert(index, (motion, priority));
        proof {
            assert(self@.queued =~= before.insert(index as int, (motion, priority.0)));
            assert forall|i: int, j: int| 0 <= i <= j < self@.queued.len() implies self@.queued[i].1 >= self@.queued[j].1 by {
                if i < index && j > index {
                    assert(self@.queued[j] == before[j - 1]);
                }
            }
        }
    }

    /// Makes a motion the active one; the motion it replaces is handed back.
    pub fn start_now(&mut self, motion: M, priority: MotionPriority) -> (previous: Option<M>)
        requires
            old(self).wf(),
        ensures
            final(self).wf(),
            previous == match old(self)@.active {
                Some(a) => Some(a.0),
                None => None,
            },
            final(self)@.active == Some((motion, priority.0)),
            final(self)@.queued == old(self)@.queued,
            final(self)@.idle == old(self)@.idle,
            final(self)@.state == MotionPlaybackState::Playing,
    {
        let previous = match self.active.take() {
            Some(a) => Some(a.0),
            None => None,
        };
        self.active = Some((motion, priority));
        self.state = MotionPlaybackState::Playing;
        previous
    }

    /// Starts the request of highest priority that waited longest, or else the idle
    /// motion; says whether one started, and hands back the motion it replaced.
    pub fn start_next_motion(&mut self) -> (r: (bool, Option<M>))
        where M: Clone,
        requires
            old(self).wf(),
        ensures
            final(self).wf(),
            old(self)@.queued.len() > 0 ==> {
                &&& r.0
                &&& final(self)@.active == Some(old(self)@.queued[0])
                &&& final(self)@.queued == old(self)@.queued.drop_first()
                &&& final(self)@.state == MotionPlaybackState::Playing
            },
            old(self)@.queued.len() == 0 && old(self)@.idle is Some ==> {
                &&& r.0
                &&& final(self)@.active matches Some(a) && a.1 == IDLE_PRIORITY && cloned::<M>(
                    old(self)@.idle->0,
                    a.0,
                )
                &&& final(self)@.queued == old(self)@.queued
                &&& final(self)@.state == MotionPlaybackState::Playing
            },
            old(self)@.queued.len() == 0 && old(self)@.idle is None ==> {
                &&& !r.0
                &&& r.1 is None
                &&& final(self)@ == old(self)@
            },
            r.0 ==> r.1 == match old(self)@.active {
                Some(a) => Some(a.0),
                None => None,
            },
            final(self)@.idle == old(self)@.idle,
    {
        if self.queued.len() > 0 {
            let ghost before = self@.queued;
            let (motion, priority) = self.queued.remove(0);
            proof {
                assert(self@.queued =~= before.drop_first());
                assert forall|i: int, j: int| 0 <= i <= j < self@.queued.len() implies self@.queued[i].1 >= self@.queued[j].1 by {
                    assert(self@.queued[i] == before[i + 1]);
                    assert(self@.queued[j] == before[j + 1]);
                }
            }
            let previous = self.start_now(motion, priority);
            return (true, previous);
        }
        match &self.idle {
            Some(idle) => {
                let motion = idle.clone();
                let previous = self.start_now(motion, MotionPriority(IDLE_PRIORITY));
                (true, previous)
            },
            None => (false, None),
        }
    }

    /// Starts a request if its priority allows, and queues it otherwise.
    pub fn request_motion(&mut self, motion: M, priority: MotionPriority) -> (r: (MotionStartResult, Option<M>))
        requires
            old(self).wf(),
        ensures
            final(self).wf(),
            (r.0 == MotionStartResult::Started) == may_start(old(self)@, priority.0),
            r.0 == MotionStartResult::Started ==> {
                &&& final(self)@.active == Some((motion, priority.0))
                &&& final(self)@.queued == old(self)@.queued
                &&& final(self)@.state == MotionPlaybackState::Playing
                &&& r.1 == match old(self)@.active {
                    Some(a) => Some(a.0),
                    None => None,
                }
            },
            r.0 == MotionStartResult::Queued ==> {
                &&& final(self)@.active == old(self)@.active
                &&& final(self)@.queued == old(self)@.queued.insert(
                    queue_position(old(self)@.queued, priority.0),
                    (motion, priority.0),
                )
                &&& final(self)@.state == old(self)@.state
                &&& r.1 is None
            },
            final(self)@.idle == old(self)@.idle,
    {
        if self.can_start_priority(priority) {
            let previous = self.start_now(motion, priority);
            (MotionStartResult::Started, previous)
        } else {
            self.enqueue(motion, priority);
            (MotionStartResult::Queued, None)
        }
    }

    /// Queues a request, and starts the next motion when nothing runs.
    pub fn queue_motion(&mut self, motion: M, priority: MotionPriority) -> (previous: Option<M>)
        where M: Clone,
        requires
            old(self).wf(),
        ensures
            final(self).wf(),
            !is_idle_state(old(self)@.state) ==> {
                &&& final(self)@.queued == old(self)@.queued.insert(
                    queue_position(old(self)@.queued, priority.0),
                    (motion, priority.0),
                )
                &&& final(self)@.active == old(self)@.active
                &&& final(self)@.state == old(self)@.state
                &&& previous is None
            },
            is_idle_state(old(self)@.state) ==> {
                let queued = old(self)@.queued.insert(queue_position(old(self)@.queued, priority.0), (motion, priority.0));
                &&& final(self)@.active == Some(queued[0])
                &&& final(self)@.queued == queued.drop_first()
                &&& final(self)@.state == MotionPlaybackState::Playing
                &&& previous == match old(self)@.active {
                    Some(a) => Some(a.0),
                    None => None,
                }
            },
            final(self)@.idle == old(self)@.idle,
    {
        self.enqueue(motion, priority);
        if matches!(self.state, MotionPlaybackState::Stopped | MotionPlaybackState::Finished) {
            let (_, previous) = self.start_next_motion();
            previous
        } else {
            None
        }
    }

    /// Sets the idle motion, and starts it when nothing runs or waits.
    pub fn set_idle_motion(&mut self, motion: M) -> (previous: Option<M>)
        where M: Clone,
        requires
            old(self).wf(),
        ensures
            final(self).wf(),
            final(self)@.idle == Some(motion),
            !(is_idle_state(old(self)@.state) && old(self)@.active is None) ==> {
                &&& final(self)@.active == old(self)@.active
                &&& final(self)@.queued == old(self)@.queued
                &&& final(self)@.state == old(self)@.state
                &&& previous is None
            },
            is_idle_state(old(self)@.state) && old(self)@.active is None && old(self)@.queued.len() > 0 ==> {
                &&& final(self)@.active == Some(old(self)@.queued[0])
                &&& final(self)@.queued == old(self)@.queued.drop_first()
                &&& final(self)@.state == MotionPlaybackState::Playing
                &&& previous is None
            },
            is_idle_state(old(self)@.state) && old(self)@.active is None && old(self)@.queued.len() == 0 ==> {
                &&& final(self)@.active matches Some(a) && a.1 == IDLE_PRIORITY && cloned::<M>(motion, a.0)
                &&& final(self)@.queued == old(self)@.queued
                &&& final(self)@.state == MotionPlaybackState::Playing
                &&& previous is None
            },
    {
        self.idle = Some(motion);
        if matches!(self.state, MotionPlaybackState::Stopped | MotionPlaybackState::Finished)
            && self.active.is_none() {
            let (_, previous) = self.start_next_motion();
            previous
        } else {
            None
        }
    }

    pub fn clear_idle_motion(&mut self)
        requires
            old(self).wf(),
        ensures
            final(self).wf(),
            final(self)@ == (SchedulerView { idle: None, ..old(self)@ }),
    {
        self.idle = None;
    }

    /// Pauses a playing motion.
    pub fn pause(&mut self)
        requires
            old(self).wf(),
        ensures
            final(self).wf(),
            final(self)@ == paused(old(self)@),
    {
        if self.state == MotionPlaybackState::Playing {
            self.state = MotionPlaybackState::Paused;
        }
    }

    /// Resumes a paused motion.
    pub fn resume(&mut self)
        requires
            old(self).wf(),
        ensures
            final(self).wf(),
            final(self)@ == resumed(old(self)@),
    {
        if self.state == MotionPlaybackState::Paused {
            self.state = MotionPlaybackState::Playing;
        }
    }

    /// Drops the active motion and the queue; the idle motion stays.
    pub fn stop(&mut self) -> (previous: Option<M>)
        requires
            old(self).wf(),
        ensures
            final(self).wf(),
            previous == match old(self)@.active {
                Some(a) => Some(a.0),
                None => None,
            },
            final(self)@.active is None,
            final(self)@.queued == Seq::<(M, u8)>::empty(),
            final(self)@.idle == old(self)@.idle,
            final(self)@.state == MotionPlaybackState::Stopped,
    {
        let previous = match self.active.take() {
            Some(a) => Some(a.0),
            None => None,
        };
        self.queued.clear();
        self.state = MotionPlaybackState::Stopped;
        proof {
            assert(self@.queued =~= Seq::<(M, u8)>::empty());
        }
        previous
    }

    /// Takes the active motion out to fade it; playback goes on while it fades, if it
    /// does.
    pub fn stop_with_fade(&mut self, fading_out: bool) -> (previous: Option<M>)
        requires
            old(self).wf(),
        ensures
            final(self).wf(),
            previous == match old(self)@.active {
                Some(a) => Some(a.0),
                None => None,
            },
            final(self)@.active is None,
            final(self)@.queued == old(self)@.queued,
            final(self)@.idle == old(self)@.idle,
            final(self)@.state == if fading_out {
                MotionPlaybackState::Playing
            } else {
                MotionPlaybackState::Stopped
            },
    {
        let previous = match self.active.take() {
            Some(a) => Some(a.0),
            None => None,
        };
        self.state = if fading_out {
            MotionPlaybackState::Playing
        } else {
            MotionPlaybackState::Stopped
        };
        previous
    }

    /// Before a tick: starts the next motion when nothing runs, and says whether
    /// playback goes on.
    pub fn begin_advance(&mut self) -> (r: (bool, Option<M>))
        where M: Clone,
        requires
            old(self).wf(),
        ensures
            final(self).wf(),
            r.0 == (final(self)@.state == MotionPlaybackState::Playing),
            old(self)@.state == MotionPlaybackState::Playing ==> final(self)@ == old(self)@ && r.1 is None,
            old(self)@.state == MotionPlaybackState::Paused ==> final(self)@ == old(self)@ && r.1 is None,
            is_idle_state(old(self)@.state) ==> (r.0 <==> (old(self)@.queued.len() > 0 || old(self)@.idle is Some)),
            final(self)@.idle == old(self)@.idle,
    {
        if self.state != MotionPlaybackState::Playing {
            let mut previous = None;
            if matches!(self.state, MotionPlaybackState::Stopped | MotionPlaybackState::Finished) {
                let (_, displaced) = self.start_next_motion();
                previous = displaced;
            }
            if self.state != MotionPlaybackState::Playing {
                return (false, previous);
            }
            return (true, previous);
        }
        (true, None)
    }

    /// After a tick in which the active motion finished: the next motion starts, or
    /// playback is finished.
    pub fn finish_active(&mut self) -> (previous: Option<M>)
        where M: Clone,
        requires
            old(self).wf(),
        ensures
            final(self).wf(),
            old(self)@.queued.len() == 0 && old(self)@.idle is None ==> {
                &&& final(self)@ == (SchedulerView { state: MotionPlaybackState::Finished, ..old(self)@ })
                &&& previous is None
            },
            old(self)@.queued.len() > 0 ==> {
                &&& final(self)@.active == Some(old(self)@.queued[0])
                &&& final(self)@.queued == old(self)@.queued.drop_first()
                &&& final(self)@.state == MotionPlaybackState::Playing
            },
            old(self)@.queued.len() == 0 && old(self)@.idle is Some ==> final(self)@.state
                == MotionPlaybackState::Playing,
            final(self)@.idle == old(self)@.idle,
    {
        let (started, previous) = self.start_next_motion();
        if !started {
            self.state = MotionPlaybackState::Finished;
        }
        previous
    }

    /// After seeking the active motion: a motion at its end is finished; otherwise the
    /// state stays as it was (a finished motion stays finished).
    pub fn settle_after_seek(&mut self, active_finished: bool)
        requires
            old(self).wf(),
        ensures
            final(self).wf(),
            final(self)@ == (SchedulerView {
                state: if active_finished {
                    MotionPlaybackState::Finished
                } else {
                    old(self)@.state
                },
                ..old(self)@
            }),
    {
        let was_finished = self.state == MotionPlaybackState::Finished;
        if active_finished {
            self.state = MotionPlaybackState::Finished;
        }
        if was_finished && self.state != MotionPlaybackState::Finished {
            self.state = MotionPlaybackState::Paused;
        }
    }
}

} // verus!
