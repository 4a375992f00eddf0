//! Steering state queues exact follow-ups and rotates physical turns without changing Work ownership.

use vstd::prelude::*;
use crate::evidence::opt_text;
use crate::runtime::{RuntimeSteer, SteerView, copy_steer, opt_steer, steers_view};
use crate::state::{ProgressView, RunProgress, copy_progress, copy_text, opt_progress};
use crate::text::same_text;
use super::model::{EntryView, Running, RunningView};
use super::store::{WorkStore, running_of, with_running};

verus! {

/// SteeringRollback restores every steering fact when its durable save fails.
pub struct SteeringRollback {
    steer: Option<RuntimeSteer>,
    steers: Vec<RuntimeSteer>,
    steering: bool,
    steer_delivered: bool,
    rotating: bool,
    stopping: bool,
    launched: bool,
    repair: bool,
    repairs: u32,
    attention: bool,
    failure: Option<String>,
    progress: Option<RunProgress>,
    turn_stop_requested: bool,
}

/// The steering facts one rollback holds.
pub struct RollbackView {
    pub steer: Option<SteerView>,
    pub steers: Seq<SteerView>,
    pub steering: bool,
    pub steer_delivered: bool,
    pub rotating: bool,
    pub stopping: bool,
    pub launched: bool,
    pub repair: bool,
    pub repairs: u32,
    pub attention: bool,
    pub failure: Option<Seq<char>>,
    pub progress: Option<ProgressView>,
    pub turn_stop_requested: bool,
}

impl View for SteeringRollback {
    type V = RollbackView;

    closed spec fn view(&self) -> RollbackView {
        RollbackView {
            steer: opt_steer(self.steer),
            steers: steers_view(self.steers@),
            steering: self.steering,
            steer_delivered: self.steer_delivered,
            rotating: self.rotating,
            stopping: self.stopping,
            launched: self.launched,
            repair: self.repair,
            repairs: self.repairs,
            attention: self.attention,
            failure: opt_text(self.failure),
            progress: opt_progress(self.progress),
            turn_stop_requested: self.turn_stop_requested,
        }
    }
}

/// The steering facts of one Running owner.
pub open spec fn captured(w: RunningView) -> RollbackView {
    RollbackView {
        steer: w.steer,
        steers: w.steers,
        steering: w.steering,
        steer_delivered: w.steer_delivered,
        rotating: w.rotating,
        stopping: w.stopping,
        launched: w.launched,
        repair: w.repair,
        repairs: w.repairs,
        attention: w.attention,
        failure: w.failure,
        progress: w.progress,
        turn_stop_requested: w.turn_stop_requested,
    }
}

/// `w` with every steering fact taken from `rb`.
pub open spec fn restored(w: RunningView, rb: RollbackView) -> RunningView {
    RunningView {
        steer: rb.steer,
        steers: rb.steers,
        steering: rb.steering,
        steer_delivered: rb.steer_delivered,
        rotating: rb.rotating,
        stopping: rb.stopping,
        launched: rb.launched,
        repair: rb.repair,
        repairs: rb.repairs,
        attention: rb.attention,
        failure: rb.failure,
        progress: rb.progress,
        turn_stop_requested: rb.turn_stop_requested,
        ..w
    }
}

/// `v` differs from `w` in steering facts only.
pub open spec fn steering_only(w: RunningView, v: RunningView) -> bool {
    &&& v.remote == w.remote
    &&& v.work_id == w.work_id
    &&& v.provider == w.provider
    &&& v.model_selection == w.model_selection
    &&& v.effort_selection == w.effort_selection
    &&& v.session == w.session
    &&& v.freeze_root == w.freeze_root
    &&& v.native_session == w.native_session
    &&& v.runner_id == w.runner_id
    &&& v.input_path == w.input_path
    &&& v.started_at == w.started_at
    &&& v.answer == w.answer
    &&& v.tokens == w.tokens
    &&& v.model == w.model
    &&& v.protected_outputs == w.protected_outputs
    &&& v.stop_requested == w.stop_requested
}

/// Whether a follow-up with this identity is already the head or queued.
pub open spec fn holds_steer(w: RunningView, id: Seq<char>) -> bool {
    ||| (w.steer matches Some(h) && h.id == id)
    ||| exists|i: int| 0 <= i < w.steers.len() && (#[trigger] w.steers[i]).id == id
}

/// Every follow-up that has not yet been answered, head first.
pub open spec fn pending(w: RunningView) -> Seq<SteerView> {
    match w.steer {
        Some(h) => seq![h] + w.steers,
        None => w.steers,
    }
}

/// A parked Work's progress keeps its cursor but hides its label.
pub open spec fn hidden_progress(p: Option<ProgressView>) -> Option<ProgressView> {
    match p {
        Some(p) => Some(ProgressView { sequence: p.sequence, text: Seq::empty() }),
        None => None,
    }
}

/// The owner after one new follow-up was accepted.
pub open spec fn queued(w: RunningView, s: SteerView) -> RunningView {
    if w.attention {
        let q = pending(w).push(s);
        RunningView {
            rotating: false,
            launched: false,
            repairs: 0,
            attention: false,
            progress: hidden_progress(w.progress),
            steer: Some(q[0]),
            steers: q.drop_first(),
            steering: true,
            steer_delivered: false,
            repair: false,
            failure: None,
            turn_stop_requested: false,
            ..w
        }
    } else if w.steer is None {
        RunningView { steer: Some(s), ..w }
    } else {
        RunningView { steers: w.steers.push(s), ..w }
    }
}

/// A queued follow-up waits behind the current physical turn.
pub open spec fn has_queued(w: RunningView) -> bool {
    (!w.steering && w.steer is Some) || (w.steering && w.steers.len() > 0)
}

/// Whether the current physical turn may be interrupted so a queued follow-up can run.
pub open spec fn rotation_ready(w: RunningView) -> bool {
    has_queued(w) && w.launched && w.native_session.len() != 0 && !w.rotating && !w.stopping
}

/// Whether a physically ended turn can be recorded as rotating.
pub open spec fn rotation_allowed(w: RunningView) -> bool {
    !w.rotating && !w.stopping && has_queued(w)
}

/// The owner after its physical turn ended for a rotation.
pub open spec fn rotated(w: RunningView) -> RunningView {
    if w.steering {
        RunningView {
            steer: if w.steers.len() > 0 {
                Some(w.steers[0])
            } else {
                None
            },
            steers: if w.steers.len() > 0 {
                w.steers.drop_first()
            } else {
                w.steers
            },
            steering: false,
            rotating: true,
            ..w
        }
    } else {
        RunningView { rotating: true, ..w }
    }
}

/// Whether the durable head may start its own turn.
pub open spec fn arm_allowed(w: RunningView) -> bool {
    w.rotating && !w.stopping && w.steer is Some
}

/// The owner after its head was armed for the next launch.
pub open spec fn armed(w: RunningView) -> RunningView {
    RunningView {
        steering: true,
        rotating: false,
        launched: false,
        steer_delivered: false,
        repair: false,
        turn_stop_requested: false,
        ..w
    }
}

/// The owner after owner Stop cleared every continuation.
pub open spec fn stopping(w: RunningView) -> RunningView {
    RunningView {
        stopping: true,
        steer: None,
        steers: Seq::empty(),
        steering: false,
        rotating: false,
        ..w
    }
}

fn copy_steers(v: &Vec<RuntimeSteer>) -> (r: Vec<RuntimeSteer>)
    ensures
        steers_view(r@) == steers_view(v@),
{
    let mut r: Vec<RuntimeSteer> = Vec::new();
    let mut i: usize = 0;
    while i < v.len()
        invariant
            i <= v.len(),
            r@.len() == i,
            forall|k: int| 0 <= k < i ==> (#[trigger] r@[k])@ == v@[k]@,
        decreases v.len() - i,
    {
        r.push(v[i].copy());
        i = i + 1;
    }
    assert(steers_view(r@) =~= steers_view(v@));
    r
}

impl SteeringRollback {
    /// Capture copies only steering facts changed by this leaf.
    fn capture(work: &Running) -> (r: Self)
        ensures
            r@ == captured(work@),
    {
        SteeringRollback {
            steer: copy_steer(&work.steer),
            steers: copy_steers(&work.steers),
            steering: work.steering,
            steer_delivered: work.steer_delivered,
            rotating: work.rotating,
            stopping: work.stopping,
            launched: work.launched,
            repair: work.repair,
            repairs: work.repairs,
            attention: work.attention,
            failure: copy_text(&work.failure),
            progress: copy_progress(&work.progress),
            turn_stop_requested: work.turn_stop_requested,
        }
    }
}

/// Whether one follow-up identity is already held by this owner.
fn holds(work: &Running, id: &str) -> (r: bool)
    ensures
        r == holds_steer(work@, id@),
{
    if let Some(head) = &work.steer {
        if same_text(head.id.as_str(), id) {
            return true;
        }
    }
    let mut i: usize = 0;
    while i < work.steers.len()
        invariant
            i <= work.steers@.len(),
            !(work@.steer matches Some(h) && h.id == id@),
            forall|k: int| 0 <= k < i ==> (#[trigger] work@.steers[k]).id != id@,
        decreases work.steers.len() - i,
    {
        if same_text(work.steers[i].id.as_str(), id) {
            assert(work@.steers[i as int].id == id@);
            return true;
        }
        i = i + 1;
    }
    false
}

/// The exec form of `queued`.
fn queue_into(work: &mut Running, steer: RuntimeSteer)
    ensures
        final(work)@ == queued(old(work)@, steer@),
{
    if work.attention {
        let ghost w = work@;
        work.rotating = false;
        work.launched = false;
        work.repairs = 0;
        work.attention = false;
        let progress = copy_progress(&work.progress);
        work.progress = match progress {
            Some(p) => Some(RunProgress { sequence: p.sequence, text: String::new() }),
            None => None,
        };
        let mut queue: Vec<RuntimeSteer> = Vec::new();
        let head = copy_steer(&work.steer);
        match head {
            Some(h) => queue.push(h),
            None => {},
        }
        let mut i: usize = 0;
        while i < work.steers.len()
            invariant
                i <= work.steers@.len(),
                w.steers == steers_view(work.steers@),
                work@.steer == w.steer,
                steers_view(queue@) =~= (match w.steer {
                    Some(h) => seq![h],
                    None => Seq::<SteerView>::empty(),
                }) + w.steers.subrange(0, i as int),
            decreases work.steers.len() - i,
        {
            let ghost q0 = queue@;
            queue.push(work.steers[i].copy());
            proof {
                assert(steers_view(queue@) =~= steers_view(q0).push(work.steers@[i as int]@));
                assert(w.steers.subrange(0, i + 1) =~= w.steers.subrange(0, i as int).push(
                    w.steers[i as int],
                ));
            }
            i = i + 1;
        }
        let ghost q1 = queue@;
        queue.push(steer);
        proof {
            assert(steers_view(queue@) =~= steers_view(q1).push(steer@));
            assert(w.steers.subrange(0, w.steers.len() as int) =~= w.steers);
            assert(steers_view(queue@) =~= pending(w).push(steer@));
        }
        let first = queue.remove(0);
        proof {
            assert(steers_view(queue@) =~= pending(w).push(steer@).drop_first());
        }
        work.steer = Some(first);
        work.steers = queue;
        work.steering = true;
        work.steer_delivered = false;
        work.repair = false;
        work.failure = None;
        work.turn_stop_requested = false;
        proof {
            assert(hidden_progress(w.progress) == opt_progress(work.progress));
        }
    } else if work.steer.is_none() {
        work.steer = Some(steer);
    } else {
        let ghost before = work.steers@;
        work.steers.push(steer);
        proof {
            assert(steers_view(work.steers@) =~= steers_view(before).push(steer@));
        }
    }
}

/// The exec form of `restored`.
fn restore_into(work: &mut Running, rollback: SteeringRollback)
    ensures
        final(work)@ == restored(old(work)@, rollback@),
{
    work.steer = rollback.steer;
    work.steers = rollback.steers;
    work.steering = rollback.steering;
    work.steer_delivered = rollback.steer_delivered;
    work.rotating = rollback.rotating;
    work.stopping = rollback.stopping;
    work.launched = rollback.launched;
    work.repair = rollback.repair;
    work.repairs = rollback.repairs;
    work.attention = rollback.attention;
    work.failure = rollback.failure;
    work.progress = rollback.progress;
    work.turn_stop_requested = rollback.turn_stop_requested;
}

impl WorkStore {
    /// QueueSteer accepts one idempotent follow-up as head or ordered tail.
    ///
    /// `validated` is the outcome of checking the follow-up's identity and attachments
    /// against this Work's private input root.
    pub fn queue_steer(
        &mut self,
        work_id: &str,
        steer: RuntimeSteer,
        validated: Result<(), String>,
    ) -> (r: Result<Option<(SteeringRollback, bool)>, String>)
        requires
            old(self).wf(),
        ensures
            final(self).wf(),
            final(self).owned() == old(self).owned(),
            match running_of(old(self)@, work_id@) {
                None => (r matches Err(m) && m@ == "Work is not Running"@) && final(self)@ == old(
                    self,
                )@,
                Some(w) => match validated {
                    Err(e) => (r matches Err(m) && m@ == e@) && final(self)@ == old(self)@,
                    Ok(_) => if w.stopping {
                        (r matches Err(m) && m@ == "Work is stopping"@) && final(self)@ == old(
                            self,
                        )@
                    } else if holds_steer(w, steer@.id) {
                        r matches Ok(None) && final(self)@ == old(self)@
                    } else {
                        (r matches Ok(Some((rb, resumed))) && rb@ == captured(w) && resumed
                            == w.attention) && final(self)@ == with_running(
                            old(self)@,
                            work_id@,
                            queued(w, steer@),
                        )
                    },
                },
            },
    {
        let (i, mut work) = match self.take_running(work_id) {
            Some(found) => found,
            None => return Err("Work is not Running".to_owned()),
        };
        let ghost before = old(self).rows();
        let outcome = match validated {
            Err(e) => Err(e),
            Ok(_) => if work.stopping {
                Err("Work is stopping".to_owned())
            } else if holds(&work, steer.id.as_str()) {
                Ok(None)
            } else {
                let rollback = SteeringRollback::capture(&work);
                let resumed = work.attention;
                queue_into(&mut work, steer);
                Ok(Some((rollback, resumed)))
            },
        };
        let ghost changed = work@;
        self.put_running(i, work, Ghost(before));
        proof {
            if !(outcome matches Ok(Some(_))) {
                assert(old(self)@.insert(work_id@, EntryView::Running(changed)) =~= old(self)@);
            }
        }
        outcome
    }

    /// RotationAuthority reports whether an eligible queued turn may interrupt the current one.
    pub fn rotation_authority(&self, work_id: &str) -> (r: bool)
        requires
            self.wf(),
        ensures
            r == (running_of(self@, work_id@) matches Some(w) && rotation_ready(w)),
    {
        match self.running_ref(work_id) {
            Some(work) => {
                let queued = (!work.steering && work.steer.is_some()) || (work.steering
                    && work.steers.len() > 0);
                queued && work.launched && crate::text::chars_of(work.native_session.as_str()).len()
                    != 0 && !work.rotating && !work.stopping
            },
            None => false,
        }
    }

    /// BeginRotation records a physically ended turn and advances an active head to its tail.
    pub fn begin_rotation(&mut self, work_id: &str) -> (r: Option<SteeringRollback>)
        requires
            old(self).wf(),
        ensures
            final(self).wf(),
            final(self).owned() == old(self).owned(),
            match running_of(old(self)@, work_id@) {
                Some(w) => if rotation_allowed(w) {
                    (r matches Some(rb) && rb@ == captured(w)) && final(self)@ == with_running(
                        old(self)@,
                        work_id@,
                        rotated(w),
                    )
                } else {
                    r is None && final(self)@ == old(self)@
                },
                None => r is None && final(self)@ == old(self)@,
            },
    {
        let (i, mut work) = match self.take_running(work_id) {
            Some(found) => found,
            None => return None,
        };
        let ghost before = old(self).rows();
        let ghost w = work@;
        let queued = (!work.steering && work.steer.is_some()) || (work.steering && work.steers.len()
            > 0);
        let outcome = if work.rotating || work.stopping || !queued {
            None
        } else {
            let rollback = SteeringRollback::capture(&work);
            if work.steering {
                if work.steers.len() > 0 {
                    let ghost rest = work.steers@;
                    let head = work.steers.remove(0);
                    proof {
                        assert(steers_view(work.steers@) =~= steers_view(rest).drop_first());
                    }
                    work.steer = Some(head);
                } else {
                    work.steer = None;
                }
                work.steering = false;
            }
            work.rotating = true;
            Some(rollback)
        };
        let ghost changed = work@;
        self.put_running(i, work, Ghost(before));
        proof {
            if outcome is None {
                assert(old(self)@.insert(work_id@, EntryView::Running(changed)) =~= old(self)@);
            } else {
                assert(changed == rotated(w));
            }
        }
        outcome
    }

    /// ArmHead starts the durable head only after prior physical cleanup completed.
    pub fn arm_head(&mut self, work_id: &str) -> (r: Option<SteeringRollback>)
        requires
            old(self).wf(),
        ensures
            final(self).wf(),
            final(self).owned() == old(self).owned(),
            match running_of(old(self)@, work_id@) {
                Some(w) => if arm_allowed(w) {
                    (r matches Some(rb) && rb@ == captured(w)) && final(self)@ == with_running(
                        old(self)@,
                        work_id@,
                        armed(w),
                    )
                } else {
                    r is None && final(self)@ == old(self)@
                },
                None => r is None && final(self)@ == old(self)@,
            },
    {
        let (i, mut work) = match self.take_running(work_id) {
            Some(found) => found,
            None => return None,
        };
        let ghost before = old(self).rows();
        let outcome = if !work.rotating || work.stopping || work.steer.is_none() {
            None
        } else {
            let rollback = SteeringRollback::capture(&work);
            work.steering = true;
            work.rotating = false;
            work.launched = false;
            work.steer_delivered = false;
            work.repair = false;
            work.turn_stop_requested = false;
            Some(rollback)
        };
        let ghost changed = work@;
        self.put_running(i, work, Ghost(before));
        proof {
            if outcome is None {
                assert(old(self)@.insert(work_id@, EntryView::Running(changed)) =~= old(self)@);
            }
        }
        outcome
    }

    /// BeginStop durably clears every continuation before owner Stop can settle the Work.
    pub fn begin_stop(&mut self, work_id: &str) -> (r: Option<SteeringRollback>)
        requires
            old(self).wf(),
        ensures
            final(self).wf(),
            final(self).owned() == old(self).owned(),
            match running_of(old(self)@, work_id@) {
                Some(w) => if !w.stopping {
                    (r matches Some(rb) && rb@ == captured(w)) && final(self)@ == with_running(
                        old(self)@,
                        work_id@,
                        stopping(w),
                    )
                } else {
                    r is None && final(self)@ == old(self)@
                },
                None => r is None && final(self)@ == old(self)@,
            },
    {
        let (i, mut work) = match self.take_running(work_id) {
            Some(found) => found,
            None => return None,
        };
        let ghost before = old(self).rows();
        let outcome = if work.stopping {
            None
        } else {
            let rollback = SteeringRollback::capture(&work);
            work.stopping = true;
            work.steer = None;
            work.steers = Vec::new();
            work.steering = false;
            work.rotating = false;
            proof {
                assert(steers_view(work.steers@) =~= Seq::<SteerView>::empty());
            }
            Some(rollback)
        };
        let ghost changed = work@;
        self.put_running(i, work, Ghost(before));
        proof {
            if outcome is None {
                assert(old(self)@.insert(work_id@, EntryView::Running(changed)) =~= old(self)@);
            }
        }
        outcome
    }

    /// RollbackSteering restores the exact in-memory facts preceding a failed durable save.
    pub fn rollback_steering(&mut self, work_id: &str, rollback: SteeringRollback)
        requires
            old(self).wf(),
        ensures
            final(self).wf(),
            final(self).owned() == old(self).owned(),
            match running_of(old(self)@, work_id@) {
                Some(w) => final(self)@ == with_running(
                    old(self)@,
                    work_id@,
                    restored(w, rollback@),
                ),
                None => final(self)@ == old(self)@,
            },
    {
        let (i, mut work) = match self.take_running(work_id) {
            Some(found) => found,
            None => return,
        };
        let ghost before = old(self).rows();
        restore_into(&mut work, rollback);
        self.put_running(i, work, Ghost(before));
    }
}

/// Every steering transition changes steering facts only, and a rollback captured before it
/// puts back exactly the store that preceded it.
pub proof fn steering_rollback_restores(
    m: Map<Seq<char>, EntryView>,
    id: Seq<char>,
    w: RunningView,
    v: RunningView,
)
    requires
        running_of(m, id) == Some(w),
        steering_only(w, v),
    ensures
        with_running(with_running(m, id, v), id, restored(v, captured(w))) == m,
{
    assert(restored(v, captured(w)) == w);
    assert(with_running(with_running(m, id, v), id, w) =~= m);
}

/// Each steering transition leaves every non-steering fact of the Work as it was.
pub proof fn steering_transitions_keep_identity(w: RunningView, s: SteerView)
    ensures
        steering_only(w, queued(w, s)),
        steering_only(w, rotated(w)),
        steering_only(w, armed(w)),
        steering_only(w, stopping(w)),
{
}

/// A follow-up once accepted is held, so accepting it again changes nothing.
pub proof fn queued_steer_is_held(w: RunningView, s: SteerView)
    ensures
        holds_steer(queued(w, s), s.id),
{
    let v = queued(w, s);
    if w.attention {
        let q = pending(w).push(s);
        if q.len() == 1 {
            assert(v.steer == Some(s));
        } else {
            assert(v.steers[q.len() - 2] == s);
        }
    } else if w.steer is None {
    } else {
        assert(v.steers[w.steers.len() as int] == s);
    }
}

/// No follow-up is ever dropped: accepting one appends it behind every message still pending.
pub proof fn queued_steer_appends(w: RunningView, s: SteerView)
    requires
        w.steer is Some || w.steers.len() == 0,
    ensures
        pending(queued(w, s)) == pending(w).push(s),
{
    let v = queued(w, s);
    if w.attention {
        let q = pending(w).push(s);
        assert(pending(v) =~= seq![q[0]] + q.drop_first());
        assert(seq![q[0]] + q.drop_first() =~= q);
    } else if w.steer is None {
        assert(pending(v) =~= pending(w).push(s));
    } else {
        assert(pending(v) =~= pending(w).push(s));
    }
}

/// Owner Stop dominates: once stopping, nothing is pending.
pub proof fn stop_clears_pending(w: RunningView)
    ensures
        pending(stopping(w)) == Seq::<SteerView>::empty(),
        !has_queued(stopping(w)),
{
    assert(pending(stopping(w)) =~= Seq::<SteerView>::empty());
}

/// A rotation hands the turn to the next follow-up without losing or repeating one: while a
/// follow-up is being answered, the ones still pending afterwards are exactly those that were
/// queued behind it, in order; otherwise what is pending does not change.
pub proof fn rotation_moves_to_the_next_follow_up(w: RunningView)
    ensures
        w.steering && w.steer is Some ==> pending(rotated(w)) == w.steers,
        !w.steering ==> pending(rotated(w)) == pending(w),
        rotated(w).rotating && !rotated(w).steering,
{
    if w.steering && w.steer is Some {
        if w.steers.len() > 0 {
            assert(pending(rotated(w)) =~= seq![w.steers[0]] + w.steers.drop_first());
            assert(seq![w.steers[0]] + w.steers.drop_first() =~= w.steers);
        }
    }
}

} // verus!
