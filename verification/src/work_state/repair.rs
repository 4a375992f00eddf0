//! Repair atomically advances one Work through sequential Provider-native continuations.

use vstd::prelude::*;
use crate::evidence::opt_text;
use crate::state::{ProgressView, RunProgress, copy_progress, copy_text, opt_progress};
use crate::text::same_text;
use super::model::{
    EntryView, Running, RunningView, attention_spec, attention_text, failure_or_empty,
};
use super::store::{WorkStore, running_of, with_running};
use super::listing::{is_transport_parked, lemma_listed_distinct, lists, names};

verus! {

/// RepairRollback restores the exact runner binding if durable rotation cannot commit.
pub struct RepairRollback {
    native_session: String,
    launched: bool,
    repair: bool,
    repairs: u32,
    attention: bool,
    failure: Option<String>,
}

/// The runner-binding facts one repair rollback holds.
pub struct RepairView {
    pub native_session: Seq<char>,
    pub launched: bool,
    pub repair: bool,
    pub repairs: u32,
    pub attention: bool,
    pub failure: Option<Seq<char>>,
}

impl View for RepairRollback {
    type V = RepairView;

    closed spec fn view(&self) -> RepairView {
        RepairView {
            native_session: self.native_session@,
            launched: self.launched,
            repair: self.repair,
            repairs: self.repairs,
            attention: self.attention,
            failure: opt_text(self.failure),
        }
    }
}

/// AttentionRollback restores an exhausted Work if its resumable park cannot commit.
pub struct AttentionRollback {
    attention: bool,
    failure: Option<String>,
    progress: Option<RunProgress>,
}

/// The parking facts one attention rollback holds.
pub struct AttentionView {
    pub attention: bool,
    pub failure: Option<Seq<char>>,
    pub progress: Option<ProgressView>,
}

impl View for AttentionRollback {
    type V = AttentionView;

    closed spec fn view(&self) -> AttentionView {
        AttentionView {
            attention: self.attention,
            failure: opt_text(self.failure),
            progress: opt_progress(self.progress),
        }
    }
}

/// The refusal every repair step gives a Work that is not Running.
pub open spec fn unavailable_text() -> Seq<char> {
    "Running Work binding is unavailable"@
}

/// The binding facts of one Running owner.
pub open spec fn repair_captured(w: RunningView) -> RepairView {
    RepairView {
        native_session: w.native_session,
        launched: w.launched,
        repair: w.repair,
        repairs: w.repairs,
        attention: w.attention,
        failure: w.failure,
    }
}

/// The owner after one dead runner was replaced by a continuation of `native_session`.
pub open spec fn repaired(w: RunningView, native_session: Seq<char>, reason: Seq<char>) -> RunningView {
    RunningView {
        native_session,
        launched: false,
        repair: true,
        attention: false,
        repairs: (w.repairs + 1) as u32,
        failure: Some(reason),
        ..w
    }
}

/// `w` with its runner binding taken from `rb`.
pub open spec fn repair_restored(w: RunningView, rb: RepairView) -> RunningView {
    RunningView {
        native_session: rb.native_session,
        launched: rb.launched,
        repair: rb.repair,
        repairs: rb.repairs,
        attention: rb.attention,
        failure: rb.failure,
        ..w
    }
}

/// The next progress cursor after the recorded one; a first fact is numbered 1.
pub open spec fn next_sequence(p: Option<ProgressView>) -> u64 {
    match p {
        Some(p) => if p.sequence == u64::MAX {
            u64::MAX
        } else {
            (p.sequence + 1) as u64
        },
        None => 1,
    }
}

/// The owner parked for its creator after self-repair reached its bound.
pub open spec fn parked(w: RunningView, reason: Seq<char>) -> RunningView {
    RunningView {
        attention: true,
        failure: Some(reason),
        progress: Some(
            ProgressView {
                sequence: next_sequence(w.progress),
                text: attention_spec(w.provider, reason),
            },
        ),
        ..w
    }
}

pub open spec fn attention_captured(w: RunningView) -> AttentionView {
    AttentionView { attention: w.attention, failure: w.failure, progress: w.progress }
}

pub open spec fn attention_restored(w: RunningView, rb: AttentionView) -> RunningView {
    RunningView { attention: rb.attention, failure: rb.failure, progress: rb.progress, ..w }
}

pub(crate) fn next_cursor(progress: &Option<RunProgress>) -> (r: u64)
    ensures
        r == next_sequence(opt_progress(*progress)),
{
    match progress {
        Some(p) => p.sequence.saturating_add(1),
        None => 1,
    }
}

impl WorkStore {
    /// BindSession captures the Provider identity required for safe continuation; a Provider that
    /// answers a resume with a new conversation rebinds here instead of stranding the Work.
    pub fn bind_session(&mut self, work_id: &str, session: String) -> (r: Result<
        Option<String>,
        String,
    >)
        requires
            old(self).wf(),
        ensures
            final(self).wf(),
            final(self).owned() == old(self).owned(),
            match running_of(old(self)@, work_id@) {
                None => (r matches Err(m) && m@ == unavailable_text()) && final(self)@ == old(self)@,
                Some(w) => if (w.native_session == session@) {
                    r matches Ok(None) && final(self)@ == old(self)@
                } else {
                    (r matches Ok(Some(previous)) && previous@ == w.native_session) && final(self)@ == with_running(
                        old(self)@,
                        work_id@,
                        RunningView { native_session: session@, ..w },
                    )
                },
            },
    {
        let (i, mut work) = match self.take_running(work_id) {
            Some(found) => found,
            None => return Err("Running Work binding is unavailable".to_owned()),
        };
        let ghost before = old(self).rows();
        let outcome = if same_text(work.native_session.as_str(), session.as_str()) {
            None
        } else {
            let previous = work.native_session.clone();
            work.native_session = session;
            Some(previous)
        };
        let ghost changed = work@;
        self.put_running(i, work, Ghost(before));
        proof {
            if outcome is None {
                assert(old(self)@.insert(work_id@, EntryView::Running(changed)) =~= old(self)@);
            }
        }
        Ok(outcome)
    }

    /// RestoreSession keeps memory aligned with disk after a failed identity commit.
    pub fn restore_session(&mut self, work_id: &str, session: String)
        requires
            old(self).wf(),
        ensures
            final(self).wf(),
            final(self).owned() == old(self).owned(),
            match running_of(old(self)@, work_id@) {
                Some(w) => final(self)@ == with_running(
                    old(self)@,
                    work_id@,
                    RunningView { native_session: session@, ..w },
                ),
                None => final(self)@ == old(self)@,
            },
    {
        let (i, mut work) = match self.take_running(work_id) {
            Some(found) => found,
            None => return,
        };
        let ghost before = old(self).rows();
        work.native_session = session;
        self.put_running(i, work, Ghost(before));
    }

    /// RotateRepair reopens the same Work runner identity only after its previous process is physically gone.
    pub fn rotate_repair(&mut self, work_id: &str, native_session: String, reason: String) -> (r:
        Result<RepairRollback, String>)
        requires
            old(self).wf(),
            running_of(old(self)@, work_id@) matches Some(w) ==> w.repairs < u32::MAX,
        ensures
            final(self).wf(),
            final(self).owned() == old(self).owned(),
            match running_of(old(self)@, work_id@) {
                None => (r matches Err(m) && m@ == unavailable_text()) && final(self)@ == old(self)@,
                Some(w) => (r matches Ok(rb) && rb@ == repair_captured(w)) && final(self)@
                    == with_running(old(self)@, work_id@, repaired(w, native_session@, reason@)),
            },
    {
        let (i, mut work) = match self.take_running(work_id) {
            Some(found) => found,
            None => return Err("Running Work binding is unavailable".to_owned()),
        };
        let ghost before = old(self).rows();
        let previous = work.native_session.clone();
        let rollback = RepairRollback {
            native_session: previous,
            launched: work.launched,
            repair: work.repair,
            repairs: work.repairs,
            attention: work.attention,
            failure: copy_text(&work.failure),
        };
        work.native_session = native_session;
        work.launched = false;
        work.repair = true;
        work.attention = false;
        work.repairs = work.repairs + 1;
        work.failure = Some(reason);
        self.put_running(i, work, Ghost(before));
        Ok(rollback)
    }

    /// RestoreRepair prevents an uncommitted runner identity from becoming executable.
    pub fn restore_repair(&mut self, work_id: &str, rollback: RepairRollback)
        requires
            old(self).wf(),
        ensures
            final(self).wf(),
            final(self).owned() == old(self).owned(),
            match running_of(old(self)@, work_id@) {
                Some(w) => final(self)@ == with_running(
                    old(self)@,
                    work_id@,
                    repair_restored(w, rollback@),
                ),
                None => final(self)@ == old(self)@,
            },
    {
        let (i, mut work) = match self.take_running(work_id) {
            Some(found) => found,
            None => return,
        };
        let ghost before = old(self).rows();
        work.native_session = rollback.native_session;
        work.launched = rollback.launched;
        work.repair = rollback.repair;
        work.repairs = rollback.repairs;
        work.attention = rollback.attention;
        work.failure = rollback.failure;
        self.put_running(i, work, Ghost(before));
    }

    /// ParkAttention preserves the same native Work after self-repair reaches its bound.
    pub fn park_attention(&mut self, work_id: &str, reason: &str) -> (r: Result<
        AttentionRollback,
        String,
    >)
        requires
            old(self).wf(),
        ensures
            final(self).wf(),
            final(self).owned() == old(self).owned(),
            match running_of(old(self)@, work_id@) {
                None => (r matches Err(m) && m@ == unavailable_text()) && final(self)@ == old(self)@,
                Some(w) => (r matches Ok(rb) && rb@ == attention_captured(w)) && final(self)@
                    == with_running(old(self)@, work_id@, parked(w, reason@)),
            },
    {
        let (i, mut work) = match self.take_running(work_id) {
            Some(found) => found,
            None => return Err("Running Work binding is unavailable".to_owned()),
        };
        let ghost before = old(self).rows();
        let rollback = AttentionRollback {
            attention: work.attention,
            failure: copy_text(&work.failure),
            progress: copy_progress(&work.progress),
        };
        let attention = attention_text(work.provider, reason);
        let sequence = next_cursor(&work.progress);
        work.attention = true;
        work.failure = Some(reason.to_owned());
        work.progress = Some(RunProgress { sequence, text: attention });
        self.put_running(i, work, Ghost(before));
        Ok(rollback)
    }

    /// RestoreAttention keeps memory aligned when a resumable park cannot persist.
    pub fn restore_attention(&mut self, work_id: &str, rollback: AttentionRollback)
        requires
            old(self).wf(),
        ensures
            final(self).wf(),
            final(self).owned() == old(self).owned(),
            match running_of(old(self)@, work_id@) {
                Some(w) => final(self)@ == with_running(
                    old(self)@,
                    work_id@,
                    attention_restored(w, rollback@),
                ),
                None => final(self)@ == old(self)@,
            },
    {
        let (i, mut work) = match self.take_running(work_id) {
            Some(found) => found,
            None => return,
        };
        let ghost before = old(self).rows();
        work.attention = rollback.attention;
        work.failure = rollback.failure;
        work.progress = rollback.progress;
        self.put_running(i, work, Ghost(before));
    }
}

/// AttentionResumeRollback restores a parked Work if wake recovery cannot commit durably.
pub struct AttentionResumeRollback {
    work_id: String,
    attention: bool,
    repair: bool,
    repairs: u32,
    launched: bool,
    failure: Option<String>,
    progress: Option<RunProgress>,
}

/// The parked facts of one Work that a wake reopened.
pub struct ResumeView {
    pub work_id: Seq<char>,
    pub attention: bool,
    pub repair: bool,
    pub repairs: u32,
    pub launched: bool,
    pub failure: Option<Seq<char>>,
    pub progress: Option<ProgressView>,
}

impl View for AttentionResumeRollback {
    type V = ResumeView;

    closed spec fn view(&self) -> ResumeView {
        ResumeView {
            work_id: self.work_id@,
            attention: self.attention,
            repair: self.repair,
            repairs: self.repairs,
            launched: self.launched,
            failure: opt_text(self.failure),
            progress: opt_progress(self.progress),
        }
    }
}

pub open spec fn resume_captured(w: RunningView) -> ResumeView {
    ResumeView {
        work_id: w.work_id,
        attention: w.attention,
        repair: w.repair,
        repairs: w.repairs,
        launched: w.launched,
        failure: w.failure,
        progress: w.progress,
    }
}

/// A parked transport failure reopened as a repair of the same native session.
pub open spec fn resumed(w: RunningView) -> RunningView {
    RunningView {
        attention: false,
        repair: true,
        repairs: 0,
        launched: false,
        progress: Some(ProgressView { sequence: next_sequence(w.progress), text: "Running"@ }),
        ..w
    }
}

pub open spec fn resume_restored(w: RunningView, rb: ResumeView) -> RunningView {
    RunningView {
        attention: rb.attention,
        repair: rb.repair,
        repairs: rb.repairs,
        launched: rb.launched,
        failure: rb.failure,
        progress: rb.progress,
        ..w
    }
}

/// What a wake does to one entry.
pub open spec fn resume_step(e: EntryView) -> EntryView {
    if is_transport_parked(e) {
        EntryView::Running(resumed(e->Running_0))
    } else {
        e
    }
}

/// `m` with the entries named in `done` advanced by a wake.
pub open spec fn resumed_in(m: Map<Seq<char>, EntryView>, done: Seq<Seq<char>>) -> Map<
    Seq<char>,
    EntryView,
> {
    Map::new(
        |k: Seq<char>| m.contains_key(k),
        |k: Seq<char>| if done.contains(k) {
            resume_step(m[k])
        } else {
            m[k]
        },
    )
}

/// One reopened Work put back as it was parked.
pub open spec fn restore_one(m: Map<Seq<char>, EntryView>, rb: ResumeView) -> Map<
    Seq<char>,
    EntryView,
> {
    match running_of(m, rb.work_id) {
        Some(w) => with_running(m, rb.work_id, resume_restored(w, rb)),
        None => m,
    }
}

/// Every reopened Work put back, in order.
pub open spec fn restore_all(m: Map<Seq<char>, EntryView>, rbs: Seq<ResumeView>) -> Map<
    Seq<char>,
    EntryView,
>
    decreases rbs.len(),
{
    if rbs.len() == 0 {
        m
    } else {
        restore_one(restore_all(m, rbs.drop_last()), rbs.last())
    }
}

pub open spec fn resume_views(v: Seq<AttentionResumeRollback>) -> Seq<ResumeView> {
    v.map_values(|r: AttentionResumeRollback| r@)
}

impl WorkStore {
    /// ResumeTransportAttention reopens only parked transport failures, preserving terminal
    /// attention causes. It names the reopened Works and returns what puts each one back.
    pub fn resume_transport_attention(&mut self) -> (r: (Vec<String>, Vec<AttentionResumeRollback>))
        requires
            old(self).wf(),
        ensures
            final(self).wf(),
            final(self).owned() == old(self).owned(),
            lists(names(r.0@), old(self)@, |e: EntryView| is_transport_parked(e)),
            final(self)@ == old(self)@.map_values(|e: EntryView| resume_step(e)),
            r.1@.len() == r.0@.len(),
            forall|t: int|
                0 <= t < r.1@.len() ==> (#[trigger] r.1@[t])@ == resume_captured(
                    old(self)@[r.0@[t]@]->Running_0,
                ),
    {
        let ids = self.transport_parked_ids();
        let ghost m = self@;
        let ghost all = names(ids@);
        proof {
            lemma_listed_distinct(all, m, |e: EntryView| is_transport_parked(e));
        }
        let mut rollbacks: Vec<AttentionResumeRollback> = Vec::new();
        let mut i: usize = 0;
        while i < ids.len()
            invariant
                self.wf(),
                self.owned() == old(self).owned(),
                m == old(self)@,
                all == names(ids@),
                lists(all, m, |e: EntryView| is_transport_parked(e)),
                forall|a: int, b: int| 0 <= a < b < all.len() ==> all[a] != all[b],
                i <= ids@.len(),
                self@ == resumed_in(m, all.take(i as int)),
                rollbacks@.len() == i,
                forall|t: int|
                    0 <= t < i ==> (#[trigger] rollbacks@[t])@ == resume_captured(
                        m[all[t]]->Running_0,
                    ),
            decreases ids.len() - i,
        {
            let ghost k = all[i as int];
            proof {
                assert(all[i as int] == ids@[i as int]@);
                assert(all.contains(k));
                if all.take(i as int).contains(k) {
                    let t = choose|t: int| 0 <= t < i && all.take(i as int)[t] == k;
                    assert(all[t] == all[i as int]);
                }
                assert(self@[k] == m[k]);
                assert(is_transport_parked(m[k]));
            }
            let ghost rows0 = self.rows();
            let (j, mut work) = match self.take_running(ids[i].as_str()) {
                Some(found) => found,
                None => {
                    assert(false);
                    return (ids, rollbacks);
                },
            };
            let ghost before = rows0;
            let ghost w = work@;
            rollbacks.push(
                AttentionResumeRollback {
                    work_id: ids[i].clone(),
                    attention: work.attention,
                    repair: work.repair,
                    repairs: work.repairs,
                    launched: work.launched,
                    failure: copy_text(&work.failure),
                    progress: copy_progress(&work.progress),
                },
            );
            let sequence = next_cursor(&work.progress);
            work.attention = false;
            work.repair = true;
            work.repairs = 0;
            work.launched = false;
            work.progress = Some(RunProgress { sequence, text: "Running".to_owned() });
            assert(work@ == resumed(w));
            self.put_running(j, work, Ghost(before));
            proof {
                assert(w == m[k]->Running_0);
                assert(resume_step(m[k]) == EntryView::Running(resumed(w)));
                let done0 = all.take(i as int);
                let done1 = all.take(i + 1);
                assert(done1 =~= done0.push(k));
                assert forall|x: Seq<char>| #[trigger] done1.contains(x) <==> (done0.contains(x)
                    || x == k) by {
                    if done1.contains(x) {
                        let t = choose|t: int| 0 <= t < done1.len() && done1[t] == x;
                        if t < done0.len() {
                            assert(done0[t] == x);
                        }
                    }
                    if done0.contains(x) {
                        let t = choose|t: int| 0 <= t < done0.len() && done0[t] == x;
                        assert(done1[t] == x);
                    }
                    if x == k {
                        assert(done1[done0.len() as int] == x);
                    }
                }
                assert(self@ =~= resumed_in(m, all.take(i + 1)));
            }
            i = i + 1;
        }
        proof {
            assert(all.take(ids@.len() as int) =~= all);
            assert(self@ =~= m.map_values(|e: EntryView| resume_step(e)));
        }
        (ids, rollbacks)
    }
}

impl WorkStore {
    /// RestoreTransportAttention returns wake-mutated records to their parked state after a failed save.
    pub fn restore_transport_attention(&mut self, rollback: Vec<AttentionResumeRollback>)
        requires
            old(self).wf(),
        ensures
            final(self).wf(),
            final(self).owned() == old(self).owned(),
            final(self)@ == restore_all(old(self)@, resume_views(rollback@)),
    {
        let ghost rbs = resume_views(rollback@);
        let mut i: usize = 0;
        while i < rollback.len()
            invariant
                self.wf(),
                self.owned() == old(self).owned(),
                rbs == resume_views(rollback@),
                i <= rollback@.len(),
                self@ == restore_all(old(self)@, rbs.take(i as int)),
            decreases rollback.len() - i,
        {
            let prior = &rollback[i];
            let ghost rb = prior@;
            proof {
                assert(rbs.take(i + 1).drop_last() =~= rbs.take(i as int));
                assert(rbs.take(i + 1).last() == rb);
            }
            let ghost rows0 = self.rows();
            let ghost mid = self@;
            match self.take_running(prior.work_id.as_str()) {
                Some((j, mut work)) => {
                    work.attention = prior.attention;
                    work.repair = prior.repair;
                    work.repairs = prior.repairs;
                    work.launched = prior.launched;
                    work.failure = copy_text(&prior.failure);
                    work.progress = copy_progress(&prior.progress);
                    self.put_running(j, work, Ghost(rows0));
                },
                None => {},
            }
            proof {
                assert(self@ == restore_one(mid, rb));
            }
            i = i + 1;
        }
        proof {
            assert(rbs.take(rollback@.len() as int) =~= rbs);
        }
    }
}

/// The first `t` rollbacks of a wake undo exactly its first `t` reopened Works.
proof fn lemma_wake_prefix(
    m: Map<Seq<char>, EntryView>,
    ids: Seq<Seq<char>>,
    caps: Seq<ResumeView>,
    t: int,
)
    requires
        forall|k: Seq<char>| m.contains_key(k) ==> (#[trigger] m[k]).id() == k,
        lists(ids, m, |e: EntryView| is_transport_parked(e)),
        forall|a: int, b: int| 0 <= a < b < ids.len() ==> ids[a] != ids[b],
        caps.len() == ids.len(),
        forall|u: int| 0 <= u < caps.len() ==> #[trigger] caps[u] == resume_captured(m[ids[u]]->Running_0),
        0 <= t <= ids.len(),
    ensures
        restore_all(m.map_values(|e: EntryView| resume_step(e)), caps.take(t)) == resumed_in(
            m,
            ids.subrange(t, ids.len() as int),
        ),
    decreases t,
{
    let n = ids.len();
    let big = m.map_values(|e: EntryView| resume_step(e));
    if t == 0 {
        assert(caps.take(0) =~= Seq::<ResumeView>::empty());
        assert forall|k: Seq<char>| m.contains_key(k) implies big[k] == resumed_in(
            m,
            ids.subrange(0, n as int),
        )[k] by {
            if !ids.subrange(0, n as int).contains(k) {
                if is_transport_parked(m[k]) {
                    assert(ids.contains(k));
                    let u = choose|u: int| 0 <= u < ids.len() && ids[u] == k;
                    assert(ids.subrange(0, n as int)[u] == k);
                }
            }
        }
        assert(big =~= resumed_in(m, ids.subrange(0, n as int)));
    } else {
        let p = t - 1;
        lemma_wake_prefix(m, ids, caps, p);
        let k = ids[p];
        assert(ids.contains(k));
        assert(is_transport_parked(m[k]));
        let w = m[k]->Running_0;
        assert(w.work_id == k);
        let s0 = ids.subrange(p, n as int);
        let s1 = ids.subrange(t, n as int);
        let before = resumed_in(m, s0);
        let after = resumed_in(m, s1);
        assert(s0[0] == k);
        assert(s0.contains(k));
        assert(before[k] == EntryView::Running(resumed(w)));
        assert(resume_restored(resumed(w), caps[p]) == w);
        assert(caps.take(t).drop_last() =~= caps.take(p));
        assert(caps.take(t).last() == caps[p]);
        assert forall|x: Seq<char>| #[trigger] s0.contains(x) <==> (s1.contains(x) || x == k) by {
            if s0.contains(x) {
                let u = choose|u: int| 0 <= u < s0.len() && s0[u] == x;
                if u > 0 {
                    assert(s1[u - 1] == x);
                }
            }
            if s1.contains(x) {
                let u = choose|u: int| 0 <= u < s1.len() && s1[u] == x;
                assert(s0[u + 1] == x);
            }
        }
        if s1.contains(k) {
            let u = choose|u: int| 0 <= u < s1.len() && s1[u] == k;
            assert(ids[t + u] == ids[p]);
        }
        assert(restore_one(before, caps[p]) =~= after);
    }
}

/// Undoing a wake with the rollbacks it returned gives back exactly the parked store.
pub proof fn wake_rollback_restores(
    m: Map<Seq<char>, EntryView>,
    ids: Seq<Seq<char>>,
    caps: Seq<ResumeView>,
)
    requires
        forall|k: Seq<char>| m.contains_key(k) ==> (#[trigger] m[k]).id() == k,
        lists(ids, m, |e: EntryView| is_transport_parked(e)),
        caps.len() == ids.len(),
        forall|t: int| 0 <= t < caps.len() ==> #[trigger] caps[t] == resume_captured(m[ids[t]]->Running_0),
    ensures
        restore_all(m.map_values(|e: EntryView| resume_step(e)), caps) == m,
{
    lemma_listed_distinct(ids, m, |e: EntryView| is_transport_parked(e));
    let n = ids.len();
    lemma_wake_prefix(m, ids, caps, n as int);
    assert(ids.subrange(n as int, n as int) =~= Seq::<Seq<char>>::empty());
    assert(resumed_in(m, Seq::empty()) =~= m);
    assert(caps.take(n as int) =~= caps);
}

/// A failed repair commit leaves the Work exactly as it was before the repair.
pub proof fn repair_rollback_restores(
    m: Map<Seq<char>, EntryView>,
    id: Seq<char>,
    w: RunningView,
    native_session: Seq<char>,
    reason: Seq<char>,
)
    requires
        running_of(m, id) == Some(w),
    ensures
        with_running(
            with_running(m, id, repaired(w, native_session, reason)),
            id,
            repair_restored(repaired(w, native_session, reason), repair_captured(w)),
        ) == m,
{
    assert(repair_restored(repaired(w, native_session, reason), repair_captured(w)) == w);
    assert(with_running(with_running(m, id, repaired(w, native_session, reason)), id, w) =~= m);
}

/// A failed park commit leaves the Work exactly as it was before it parked.
pub proof fn park_rollback_restores(
    m: Map<Seq<char>, EntryView>,
    id: Seq<char>,
    w: RunningView,
    reason: Seq<char>,
)
    requires
        running_of(m, id) == Some(w),
    ensures
        with_running(
            with_running(m, id, parked(w, reason)),
            id,
            attention_restored(parked(w, reason), attention_captured(w)),
        ) == m,
{
    assert(attention_restored(parked(w, reason), attention_captured(w)) == w);
    assert(with_running(with_running(m, id, parked(w, reason)), id, w) =~= m);
}

/// Parking never rewinds the progress cursor the browser already observed.
pub proof fn park_advances_cursor(w: RunningView, reason: Seq<char>)
    ensures
        parked(w, reason).progress matches Some(p) && (w.progress matches Some(q) ==> p.sequence
            >= q.sequence) && p.sequence >= 1,
{
}

/// A repair spends exactly one unit of the Work's repair budget.
pub proof fn repair_spends_one(w: RunningView, native_session: Seq<char>, reason: Seq<char>)
    requires
        w.repairs < u32::MAX,
    ensures
        repaired(w, native_session, reason).repairs == w.repairs + 1,
        !repaired(w, native_session, reason).attention,
{
}

} // verus!
