//! Work models hold only facts that change public progress, verified delivery, or owner Stop.

use vstd::prelude::*;
use crate::evidence::{ResultKind, opt_text};
use crate::provider::{Provider, label_text};
use crate::request::texts;
use crate::runtime::{RuntimeSteer, RuntimeWork, SteerView, copy_steer, opt_steer, steers_view};
use crate::state::{
    DeliveryFile, FileView, ProgressView, RunPhase, RunProgress, RunSnapshot, SnapshotView,
    copy_files, copy_progress, copy_text, files, opt_progress,
};
use crate::text::{
    chars_of, contains_chars, is_blank, is_blank_spec, lower_chars, lower_text, push_text,
    seq_contains, string_of, trim, trimmed,
};

verus! {

/// A Work may replace its dead runner only this many times before it asks the creator.
pub const MAX_REPAIRS: u32 = 3;

/// Only the terminal the user chose may claim the user chose it.
pub open spec fn owner_stop_text() -> Seq<char> {
    "Stopped by you"@
}

/// A terminal runner failure delivered nothing and must say exactly that.
pub open spec fn runner_end_text() -> Seq<char> {
    "Your Agent stopped without delivering"@
}

/// Attention is the one public stage that asks the creator without ending the Work.
pub open spec fn attention_base() -> Seq<char> {
    "Needs attention"@
}

/// The stage label a Provider publishes while its turn waits on the creator.
pub open spec fn waiting_text() -> Seq<char> {
    "Waiting for you"@
}

pub fn owner_stop() -> (r: String)
    ensures
        r@ == owner_stop_text(),
{
    "Stopped by you".to_owned()
}

pub fn runner_end() -> (r: String)
    ensures
        r@ == runner_end_text(),
{
    "Your Agent stopped without delivering".to_owned()
}

/// The failure words that a reconnect of the same session can repair.
pub open spec fn transport_markers() -> Seq<Seq<char>> {
    seq![
        "network"@,
        "transport"@,
        "timed out"@,
        "timeout"@,
        "connection reset"@,
        "connection refused"@,
        "broken pipe"@,
        "disconnected"@,
        "unreachable"@,
        "eof"@,
    ]
}

pub open spec fn transport_shaped_text(reason: Seq<char>) -> bool {
    exists|i: int|
        0 <= i < transport_markers().len() && seq_contains(
            lower_text(reason),
            #[trigger] transport_markers()[i],
        )
}

/// TransportShaped accepts only failures that can be repaired by reconnecting the same session.
pub fn transport_shaped(reason: Option<&str>) -> (r: bool)
    ensures
        r == transport_shaped_text(
            match reason {
                Some(s) => s@,
                None => Seq::empty(),
            },
        ),
{
    let text: &str = match reason {
        Some(s) => s,
        None => "",
    };
    proof {
        reveal_strlit("");
    }
    let lower = lower_chars(text);
    let markers: Vec<&str> = vec![
        "network",
        "transport",
        "timed out",
        "timeout",
        "connection reset",
        "connection refused",
        "broken pipe",
        "disconnected",
        "unreachable",
        "eof",
    ];
    assert(markers@.len() == 10);
    let ghost reason_text = text@;
    assert(reason_text == match reason {
        Some(s) => s@,
        None => Seq::<char>::empty(),
    });
    let mut i: usize = 0;
    while i < markers.len()
        invariant
            markers@.len() == 10,
            transport_markers().len() == 10,
            reason_text == match reason {
                Some(s) => s@,
                None => Seq::<char>::empty(),
            },
            forall|k: int| 0 <= k < 10 ==> (#[trigger] markers@[k])@ == transport_markers()[k],
            lower@ == lower_text(reason_text),
            i <= 10,
            forall|k: int| 0 <= k < i ==> !seq_contains(lower_text(reason_text), #[trigger] transport_markers()[k]),
        decreases 10 - i,
    {
        let needle = chars_of(markers[i]);
        if contains_chars(&lower, &needle) {
            assert(seq_contains(lower_text(reason_text), transport_markers()[i as int]));
            return true;
        }
        i = i + 1;
    }
    false
}

/// The public wording of a parked Work.
pub open spec fn attention_spec(provider: Provider, reason: Seq<char>) -> Seq<char> {
    let r = trimmed(reason);
    if transport_shaped_text(r) {
        "Needs attention — "@ + label_text(provider) + " lost its connection to its own service"@
    } else if r.len() == 0 {
        attention_base()
    } else {
        "Needs attention — "@ + r
    }
}

/// AttentionText keeps the stored recovery cause visible without inventing another control state.
pub fn attention_text(provider: Provider, reason: &str) -> (r: String)
    ensures
        r@ == attention_spec(provider, reason@),
{
    let reason = trim(reason);
    if transport_shaped(Some(reason.as_str())) {
        let mut out: Vec<char> = Vec::new();
        push_text(&mut out, "Needs attention — ");
        push_text(&mut out, provider.label());
        push_text(&mut out, " lost its connection to its own service");
        return string_of(out.as_slice());
    }
    if chars_of(reason.as_str()).len() == 0 {
        return "Needs attention".to_owned();
    }
    let mut out: Vec<char> = Vec::new();
    push_text(&mut out, "Needs attention — ");
    push_text(&mut out, reason.as_str());
    string_of(out.as_slice())
}

/// Running binds one Provider runner, native session, Stop authority, and public progress.
pub struct Running {
    pub remote: bool,
    pub work_id: String,
    pub provider: Provider,
    pub model_selection: Option<String>,
    pub effort_selection: Option<String>,
    pub session: String,
    pub freeze_root: String,
    pub native_session: String,
    pub runner_id: String,
    pub input_path: String,
    pub launched: bool,
    /// Repair records that the next runner must resume the bound native session.
    pub repair: bool,
    /// Steer is the durable head message awaiting or driving one native continuation.
    pub steer: Option<RuntimeSteer>,
    /// Steers preserves later messages in their accepted order.
    pub steers: Vec<RuntimeSteer>,
    /// Steering records that the head owns the current physical turn.
    pub steering: bool,
    /// SteerDelivered records that a runner already received the head's exact words.
    pub steer_delivered: bool,
    /// Rotating records that the prior physical turn ended before its private cleanup.
    pub rotating: bool,
    /// Stopping makes owner Stop dominate every queued continuation across restart.
    pub stopping: bool,
    /// Repairs counts every runner this Work has already replaced.
    pub repairs: u32,
    /// Attention parks an exhausted Work while preserving same-session steering and owner Stop.
    pub attention: bool,
    /// Failure preserves the latest repair cause.
    pub failure: Option<String>,
    pub started_at: u64,
    /// Answer is the cumulative safe Provider text visible while the native turn is Running.
    pub answer: String,
    pub progress: Option<RunProgress>,
    pub tokens: Option<u64>,
    pub model: Option<String>,
    /// ProtectedOutputs is the bounded exact tool-output set for this Work's whole lifetime.
    pub protected_outputs: Vec<String>,
    /// The owner's Stop was requested for this Work.
    pub stop_requested: bool,
    /// The current physical turn was asked to end.
    pub turn_stop_requested: bool,
}

pub struct RunningView {
    pub remote: bool,
    pub work_id: Seq<char>,
    pub provider: Provider,
    pub model_selection: Option<Seq<char>>,
    pub effort_selection: Option<Seq<char>>,
    pub session: Seq<char>,
    pub freeze_root: Seq<char>,
    pub native_session: Seq<char>,
    pub runner_id: Seq<char>,
    pub input_path: Seq<char>,
    pub launched: bool,
    pub repair: bool,
    pub steer: Option<SteerView>,
    pub steers: Seq<SteerView>,
    pub steering: bool,
    pub steer_delivered: bool,
    pub rotating: bool,
    pub stopping: bool,
    pub repairs: u32,
    pub attention: bool,
    pub failure: Option<Seq<char>>,
    pub started_at: u64,
    pub answer: Seq<char>,
    pub progress: Option<ProgressView>,
    pub tokens: Option<u64>,
    pub model: Option<Seq<char>>,
    pub protected_outputs: Seq<Seq<char>>,
    pub stop_requested: bool,
    pub turn_stop_requested: bool,
}

impl View for Running {
    type V = RunningView;

    open spec fn view(&self) -> RunningView {
        RunningView {
            remote: self.remote,
            work_id: self.work_id@,
            provider: self.provider,
            model_selection: opt_text(self.model_selection),
            effort_selection: opt_text(self.effort_selection),
            session: self.session@,
            freeze_root: self.freeze_root@,
            native_session: self.native_session@,
            runner_id: self.runner_id@,
            input_path: self.input_path@,
            launched: self.launched,
            repair: self.repair,
            steer: opt_steer(self.steer),
            steers: steers_view(self.steers@),
            steering: self.steering,
            steer_delivered: self.steer_delivered,
            rotating: self.rotating,
            stopping: self.stopping,
            repairs: self.repairs,
            attention: self.attention,
            failure: opt_text(self.failure),
            started_at: self.started_at,
            answer: self.answer@,
            progress: opt_progress(self.progress),
            tokens: self.tokens,
            model: opt_text(self.model),
            protected_outputs: texts(self.protected_outputs@),
            stop_requested: self.stop_requested,
            turn_stop_requested: self.turn_stop_requested,
        }
    }
}

/// ArtifactPending keeps native completion Running until every frozen byte verifies again.
pub struct ArtifactPending {
    pub remote: bool,
    pub work_id: String,
    pub session: Option<String>,
    pub answer: String,
    pub kind: ResultKind,
    pub run: String,
    pub native_session: String,
    pub manifest: Vec<DeliveryFile>,
    pub freeze_root: String,
    pub started_at: u64,
}

pub struct PendingView {
    pub remote: bool,
    pub work_id: Seq<char>,
    pub session: Option<Seq<char>>,
    pub answer: Seq<char>,
    pub kind: ResultKind,
    pub run: Seq<char>,
    pub native_session: Seq<char>,
    pub manifest: Seq<FileView>,
    pub freeze_root: Seq<char>,
    pub started_at: u64,
}

impl View for ArtifactPending {
    type V = PendingView;

    open spec fn view(&self) -> PendingView {
        PendingView {
            remote: self.remote,
            work_id: self.work_id@,
            session: opt_text(self.session),
            answer: self.answer@,
            kind: self.kind,
            run: self.run@,
            native_session: self.native_session@,
            manifest: files(self.manifest@),
            freeze_root: self.freeze_root@,
            started_at: self.started_at,
        }
    }
}

/// DoneWork owns one verified result and optional frozen bytes awaiting Account acknowledgement.
pub struct DoneWork {
    pub remote: bool,
    pub work_id: String,
    pub session: Option<String>,
    pub answer: String,
    pub kind: ResultKind,
    pub run: Option<String>,
    pub native_session: String,
    pub manifest: Vec<DeliveryFile>,
    pub freeze_root: Option<String>,
    /// Servable records that the frozen bytes verified and can be opened for delivery.
    pub servable: bool,
    pub started_at: u64,
    /// EndedAt lets retention measure from the terminal moment instead of guessing from launch.
    pub ended_at: Option<u64>,
}

pub struct DoneView {
    pub remote: bool,
    pub work_id: Seq<char>,
    pub session: Option<Seq<char>>,
    pub answer: Seq<char>,
    pub kind: ResultKind,
    pub run: Option<Seq<char>>,
    pub native_session: Seq<char>,
    pub manifest: Seq<FileView>,
    pub freeze_root: Option<Seq<char>>,
    pub servable: bool,
    pub started_at: u64,
    pub ended_at: Option<u64>,
}

impl View for DoneWork {
    type V = DoneView;

    open spec fn view(&self) -> DoneView {
        DoneView {
            remote: self.remote,
            work_id: self.work_id@,
            session: opt_text(self.session),
            answer: self.answer@,
            kind: self.kind,
            run: opt_text(self.run),
            native_session: self.native_session@,
            manifest: files(self.manifest@),
            freeze_root: opt_text(self.freeze_root),
            servable: self.servable,
            started_at: self.started_at,
            ended_at: self.ended_at,
        }
    }
}

/// StoppedWork records one terminal end and original public history.
pub struct StoppedWork {
    pub remote: bool,
    pub work_id: String,
    pub session: Option<String>,
    pub freeze_root: Option<String>,
    pub started_at: u64,
    pub ended_at: Option<u64>,
    /// Owner separates the user's explicit Stop from a runner that ended or spent its repair budget.
    pub owner: bool,
    /// Reason preserves the exact runner failure shown to the user.
    pub reason: String,
}

pub struct StoppedView {
    pub remote: bool,
    pub work_id: Seq<char>,
    pub session: Option<Seq<char>>,
    pub freeze_root: Option<Seq<char>>,
    pub started_at: u64,
    pub ended_at: Option<u64>,
    pub owner: bool,
    pub reason: Seq<char>,
}

impl View for StoppedWork {
    type V = StoppedView;

    open spec fn view(&self) -> StoppedView {
        StoppedView {
            remote: self.remote,
            work_id: self.work_id@,
            session: opt_text(self.session),
            freeze_root: opt_text(self.freeze_root),
            started_at: self.started_at,
            ended_at: self.ended_at,
            owner: self.owner,
            reason: self.reason@,
        }
    }
}

/// Entry is one Work's durable lifecycle state.
pub enum Entry {
    Running(Running),
    ArtifactPending(ArtifactPending),
    Done(DoneWork),
    Stopped(StoppedWork),
}

pub enum EntryView {
    Running(RunningView),
    ArtifactPending(PendingView),
    Done(DoneView),
    Stopped(StoppedView),
}

impl View for Entry {
    type V = EntryView;

    open spec fn view(&self) -> EntryView {
        match self {
            Entry::Running(w) => EntryView::Running(w@),
            Entry::ArtifactPending(w) => EntryView::ArtifactPending(w@),
            Entry::Done(w) => EntryView::Done(w@),
            Entry::Stopped(w) => EntryView::Stopped(w@),
        }
    }
}

impl EntryView {
    pub open spec fn id(self) -> Seq<char> {
        match self {
            EntryView::Running(w) => w.work_id,
            EntryView::ArtifactPending(w) => w.work_id,
            EntryView::Done(w) => w.work_id,
            EntryView::Stopped(w) => w.work_id,
        }
    }

    pub open spec fn remote(self) -> bool {
        match self {
            EntryView::Running(w) => w.remote,
            EntryView::ArtifactPending(w) => w.remote,
            EntryView::Done(w) => w.remote,
            EntryView::Stopped(w) => w.remote,
        }
    }

    /// The same entry with its Account provenance set.
    pub open spec fn with_remote(self, remote: bool) -> EntryView {
        match self {
            EntryView::Running(w) => EntryView::Running(RunningView { remote, ..w }),
            EntryView::ArtifactPending(w) => EntryView::ArtifactPending(PendingView { remote, ..w }),
            EntryView::Done(w) => EntryView::Done(DoneView { remote, ..w }),
            EntryView::Stopped(w) => EntryView::Stopped(StoppedView { remote, ..w }),
        }
    }
}

impl Entry {
    pub fn work_id(&self) -> (r: &String)
        ensures
            r@ == self@.id(),
    {
        match self {
            Entry::Running(w) => &w.work_id,
            Entry::ArtifactPending(w) => &w.work_id,
            Entry::Done(w) => &w.work_id,
            Entry::Stopped(w) => &w.work_id,
        }
    }

    pub fn remote(&self) -> (r: bool)
        ensures
            r == self@.remote(),
    {
        match self {
            Entry::Running(w) => w.remote,
            Entry::ArtifactPending(w) => w.remote,
            Entry::Done(w) => w.remote,
            Entry::Stopped(w) => w.remote,
        }
    }
}

/// Entries that can still execute or verify bytes keep the machine awake.
pub open spec fn needs_power(e: EntryView) -> bool {
    (e matches EntryView::Running(w) && !w.attention) || e is ArtifactPending
}

/// MessageIdentity gives a Provider message without its own identity one stable, content-exact
/// name: the SHA-256 of its UTF-8 bytes in lowercase hexadecimal.
pub fn message_identity(text: &str) -> (r: String)
    ensures
        r@ == crate::receipt::hex_text(crate::receipt::sha256_of(vstd::utf8::encode_utf8(text@))),
{
    let d = crate::receipt::sha256(text.as_bytes());
    crate::receipt::hex(d.as_slice())
}

/// RunningNeedsPower names the durable entries that can still execute or verify bytes.
pub fn running_needs_power(entry: &Entry) -> (r: bool)
    ensures
        r == needs_power(entry@),
{
    match entry {
        Entry::Running(work) => !work.attention,
        Entry::ArtifactPending(_) => true,
        _ => false,
    }
}

/// The Running owner a fresh admission publishes.
pub open spec fn running_from_view(runtime: RuntimeWork, remote: bool) -> RunningView {
    RunningView {
        remote,
        work_id: runtime.work_id@,
        provider: runtime.provider,
        model_selection: opt_text(runtime.model_selection),
        effort_selection: opt_text(runtime.effort_selection),
        session: runtime.session@,
        freeze_root: runtime.freeze_root@,
        native_session: runtime.native_session@,
        runner_id: runtime.runner_id@,
        input_path: runtime.input_path@,
        launched: false,
        repair: false,
        steer: opt_steer(runtime.steer),
        steers: Seq::empty(),
        steering: runtime.steer is Some,
        steer_delivered: false,
        rotating: runtime.rotating,
        stopping: false,
        repairs: 0,
        attention: false,
        failure: None,
        started_at: runtime.started_at,
        answer: Seq::empty(),
        progress: None,
        tokens: None,
        model: None,
        protected_outputs: Seq::empty(),
        stop_requested: false,
        turn_stop_requested: false,
    }
}

impl Running {
    /// FromRuntime transfers an admitted runtime into durable ownership before native launch.
    pub fn from_runtime(runtime: &RuntimeWork, remote: bool) -> (r: Self)
        ensures
            r@ == running_from_view(*runtime, remote),
    {
        let r = Running {
            remote,
            work_id: runtime.work_id.clone(),
            provider: runtime.provider,
            model_selection: copy_text(&runtime.model_selection),
            effort_selection: copy_text(&runtime.effort_selection),
            session: runtime.session.clone(),
            freeze_root: runtime.freeze_root.clone(),
            native_session: runtime.native_session.clone(),
            runner_id: runtime.runner_id.clone(),
            input_path: runtime.input_path.clone(),
            launched: false,
            repair: false,
            steer: copy_steer(&runtime.steer),
            steers: Vec::new(),
            steering: runtime.steer.is_some(),
            steer_delivered: false,
            rotating: runtime.rotating,
            stopping: false,
            repairs: 0,
            attention: false,
            failure: None,
            started_at: runtime.started_at,
            answer: String::new(),
            progress: None,
            tokens: None,
            model: None,
            protected_outputs: Vec::new(),
            stop_requested: false,
            turn_stop_requested: false,
        };
        assert(steers_view(r.steers@) =~= Seq::empty());
        assert(texts(r.protected_outputs@) =~= Seq::empty());
        r
    }
}

pub open spec fn failure_or_empty(failure: Option<Seq<char>>) -> Seq<char> {
    match failure {
        Some(f) => f,
        None => Seq::empty(),
    }
}

/// A live Work's public truth: its answer so far and Provider-public progress.
pub open spec fn running_view(
    started_at: u64,
    answer: Seq<char>,
    progress: Option<ProgressView>,
    tokens: Option<u64>,
    model: Option<Seq<char>>,
) -> SnapshotView {
    SnapshotView {
        phase: RunPhase::Running,
        text: answer,
        started_at,
        progress: match progress {
            Some(p) => if p.text.len() != 0 {
                Some(p)
            } else {
                None
            },
            None => None,
        },
        tokens,
        model,
        kind: None,
        run: None,
        files: Seq::empty(),
        awaiting: progress matches Some(p) && p.text == waiting_text(),
    }
}

/// The public projection of one durable entry.
pub open spec fn snapshot_of(entry: EntryView) -> SnapshotView {
    match entry {
        EntryView::Running(w) => if w.attention {
            SnapshotView {
                phase: RunPhase::Failed,
                text: attention_spec(w.provider, failure_or_empty(w.failure)),
                started_at: w.started_at,
                progress: None,
                tokens: None,
                model: None,
                kind: None,
                run: None,
                files: Seq::empty(),
                awaiting: false,
            }
        } else {
            running_view(w.started_at, w.answer, w.progress, w.tokens, w.model)
        },
        EntryView::ArtifactPending(w) => running_view(w.started_at, w.answer, None, None, None),
        EntryView::Done(w) => SnapshotView {
            phase: RunPhase::Done,
            text: w.answer,
            started_at: w.started_at,
            progress: None,
            tokens: None,
            model: None,
            kind: Some(w.kind),
            run: w.run,
            files: w.manifest,
            awaiting: w.manifest.len() == 0 && !is_blank_spec(w.answer),
        },
        EntryView::Stopped(w) => SnapshotView {
            phase: if w.owner {
                RunPhase::Stopped
            } else {
                RunPhase::Failed
            },
            text: if w.owner {
                owner_stop_text()
            } else {
                w.reason
            },
            started_at: w.started_at,
            progress: None,
            tokens: None,
            model: None,
            kind: None,
            run: None,
            files: Seq::empty(),
            awaiting: false,
        },
    }
}

fn is_waiting(progress: &Option<RunProgress>) -> (r: bool)
    ensures
        r == (opt_progress(*progress) matches Some(p) && p.text == waiting_text()),
{
    match progress {
        Some(p) => crate::text::same_text(p.text.as_str(), "Waiting for you"),
        None => false,
    }
}

/// RunningSnapshot exposes Provider-public progress without leaking recovery anomalies.
fn running_snapshot(
    started_at: u64,
    answer: String,
    progress: Option<RunProgress>,
    tokens: Option<u64>,
    model: Option<String>,
) -> (r: RunSnapshot)
    ensures
        r@ == running_view(started_at, answer@, opt_progress(progress), tokens, opt_text(model)),
{
    let awaiting = is_waiting(&progress);
    let progress = match progress {
        Some(p) => if chars_of(p.text.as_str()).len() != 0 {
            Some(p)
        } else {
            None
        },
        None => None,
    };
    let r = RunSnapshot {
        phase: RunPhase::Running,
        text: answer,
        started_at,
        progress,
        tokens,
        model,
        kind: None,
        run: None,
        files: Vec::new(),
        awaiting,
    };
    assert(files(r.files@) =~= Seq::empty());
    r
}

/// FailedSnapshot exposes a parked durable conversation as failure, never as live execution.
fn failed_snapshot(work: &Running) -> (r: RunSnapshot)
    ensures
        r@ == snapshot_of(EntryView::Running(RunningView { attention: true, ..work@ })),
{
    let reason: &str = match &work.failure {
        Some(f) => f.as_str(),
        None => "",
    };
    proof {
        reveal_strlit("");
    }
    let r = RunSnapshot {
        phase: RunPhase::Failed,
        text: attention_text(work.provider, reason),
        started_at: work.started_at,
        progress: None,
        tokens: None,
        model: None,
        kind: None,
        run: None,
        files: Vec::new(),
        awaiting: false,
    };
    assert(files(r.files@) =~= Seq::empty());
    r
}

/// Snapshot projects every internal state onto Running, Done, owner Stopped, or Failed only.
pub fn snapshot(entry: &Entry) -> (r: RunSnapshot)
    ensures
        r@ == snapshot_of(entry@),
{
    match entry {
        Entry::Running(work) => {
            if work.attention {
                failed_snapshot(work)
            } else {
                running_snapshot(
                    work.started_at,
                    work.answer.clone(),
                    copy_progress(&work.progress),
                    work.tokens,
                    copy_text(&work.model),
                )
            }
        },
        Entry::ArtifactPending(work) => running_snapshot(
            work.started_at,
            work.answer.clone(),
            None,
            None,
            None,
        ),
        Entry::Done(work) => {
            let awaiting = work.manifest.len() == 0 && !is_blank(work.answer.as_str());
            RunSnapshot {
                phase: RunPhase::Done,
                text: work.answer.clone(),
                started_at: work.started_at,
                progress: None,
                tokens: None,
                model: None,
                kind: Some(work.kind),
                run: copy_text(&work.run),
                files: copy_files(&work.manifest),
                awaiting,
            }
        },
        Entry::Stopped(work) => {
            let r = RunSnapshot {
                phase: if work.owner {
                    RunPhase::Stopped
                } else {
                    RunPhase::Failed
                },
                text: if work.owner {
                    owner_stop()
                } else {
                    work.reason.clone()
                },
                started_at: work.started_at,
                progress: None,
                tokens: None,
                model: None,
                kind: None,
                run: None,
                files: Vec::new(),
                awaiting: false,
            };
            assert(files(r.files@) =~= Seq::empty());
            r
        },
    }
}

} // verus!
