//! Work restoration validates durable identity and bytes without launching any native execution.

use vstd::prelude::*;
use crate::evidence::{ResultKind, opt_text, valid_work_id};
use crate::provider::Provider;
use crate::request::texts;
use crate::runtime::{RuntimeSteer, SteerView, opt_steer, steers_view};
use crate::state::{DeliveryFile, FileView, ProgressView, RunProgress, files, opt_progress};
use crate::text::{has_control, has_control_spec, is_blank, is_blank_spec, same_text, valid_identity_text};
use super::model::{
    ArtifactPending, DoneView, DoneWork, Entry, EntryView, PendingView, Running, RunningView,
    StoppedView, StoppedWork, attention_base, attention_spec, attention_text, runner_end,
    runner_end_text, MAX_REPAIRS,
};
use super::protected::{kept_prefix, protected_outputs_prefix};
use super::repair::next_sequence;

verus! {

/// The follow-ups that survive a restart: each still authorized and said once, in order.
pub open spec fn surviving(items: Seq<SteerView>, valid: Seq<bool>) -> Seq<SteerView>
    decreases items.len(),
{
    if items.len() == 0 {
        Seq::empty()
    } else {
        let prev = surviving(items.drop_last(), valid);
        let item = items.last();
        let i = items.len() - 1;
        if i < valid.len() && valid[i] && !(exists|t: int|
            0 <= t < prev.len() && (#[trigger] prev[t]).id == item.id) {
            prev.push(item)
        } else {
            prev
        }
    }
}

/// The restored steering facts: head, queue, whether the head owns the turn, and whether a
/// rotation is in flight.
pub open spec fn sanitized(
    steer: Option<SteerView>,
    steers: Seq<SteerView>,
    steering: bool,
    rotating: bool,
    valid: Seq<bool>,
) -> (Option<SteerView>, Seq<SteerView>, bool, bool) {
    let items = match steer {
        Some(h) => seq![h] + steers,
        None => steers,
    };
    let kept = surviving(items, valid);
    let head = if kept.len() > 0 {
        Some(kept[0])
    } else {
        None
    };
    let rest = if kept.len() > 0 {
        kept.drop_first()
    } else {
        kept
    };
    let survived = head matches Some(h) && steer matches Some(s) && h.id == s.id;
    if survived {
        (head, rest, steering, rotating)
    } else {
        (head, rest, false, false)
    }
}

/// Whether some kept follow-up already carries this identity.
fn holds_id(kept: &Vec<RuntimeSteer>, id: &str) -> (r: bool)
    ensures
        r == exists|t: int| 0 <= t < kept@.len() && (#[trigger] steers_view(kept@)[t]).id == id@,
{
    let mut q: usize = 0;
    while q < kept.len()
        invariant
            q <= kept@.len(),
            forall|t: int| 0 <= t < q ==> (#[trigger] steers_view(kept@)[t]).id != id@,
        decreases kept.len() - q,
    {
        if same_text(kept[q].id.as_str(), id) {
            assert(steers_view(kept@)[q as int].id == id@);
            return true;
        }
        q = q + 1;
    }
    false
}

/// SanitizedSteers drops only the queued follow-ups that no longer reauthorize, so a lost message
/// never erases its Running Work. `valid[i]` says whether the `i`th follow-up, head first,
/// still reauthorizes against the Work's private input root.
pub fn sanitized_steers(
    steer: Option<RuntimeSteer>,
    steers: Vec<RuntimeSteer>,
    steering: bool,
    rotating: bool,
    valid: &Vec<bool>,
) -> (r: (Option<RuntimeSteer>, Vec<RuntimeSteer>, bool, bool))
    ensures
        (opt_steer(r.0), steers_view(r.1@), r.2, r.3) == sanitized(
            opt_steer(steer),
            steers_view(steers@),
            steering,
            rotating,
            valid@,
        ),
{
    let ghost head_view = opt_steer(steer);
    let head_id: Option<String> = match &steer {
        Some(h) => Some(h.id.clone()),
        None => None,
    };
    let mut items = steers;
    let ghost tail = steers_view(items@);
    match steer {
        Some(h) => items.insert(0, h),
        None => {},
    }
    let ghost all = steers_view(items@);
    proof {
        assert(all =~= match head_view {
            Some(h) => seq![h] + tail,
            None => tail,
        });
    }
    let n = items.len();
    let mut kept: Vec<RuntimeSteer> = Vec::new();
    let mut i: usize = 0;
    while i < n
        invariant
            n == all.len(),
            i <= n,
            steers_view(items@) == all.skip(i as int),
            steers_view(kept@) == surviving(all.take(i as int), valid@),
        decreases n - i,
    {
        let ghost i0 = items@;
        assert(steers_view(i0).len() == i0.len());
        let item = items.remove(0);
        proof {
            assert(steers_view(items@) =~= steers_view(i0).drop_first());
            assert(all.skip(i as int).drop_first() =~= all.skip(i + 1));
            assert(steers_view(items@) =~= all.skip(i + 1));
            assert(item == i0[0]);
            assert(steers_view(i0)[0] == all.skip(i as int)[0]);
            assert(item@ == all[i as int]);
            assert(all.take(i + 1).drop_last() =~= all.take(i as int));
            assert(all.take(i + 1).last() == all[i as int]);
        }
        let ok = i < valid.len() && valid[i];
        if ok && !holds_id(&kept, item.id.as_str()) {
            let ghost k0 = steers_view(kept@);
            kept.push(item);
            proof {
                assert(steers_view(kept@) =~= k0.push(all[i as int]));
            }
        }
        i = i + 1;
    }
    proof {
        assert(all.take(n as int) =~= all);
    }
    let ghost kept_view = steers_view(kept@);
    let head = if kept.len() > 0 {
        let h = kept.remove(0);
        proof {
            assert(steers_view(kept@) =~= kept_view.drop_first());
        }
        Some(h)
    } else {
        None
    };
    let survived = match (&head, &head_id) {
        (Some(kept_head), Some(original)) => same_text(kept_head.id.as_str(), original.as_str()),
        _ => false,
    };
    if survived {
        (head, kept, steering, rotating)
    } else {
        (head, kept, false, false)
    }
}

/// SavedWork is the restart-safe record of one Work: only facts that restore ownership or prove
/// a terminal result.
#[allow(inconsistent_fields)]
pub enum SavedWork {
    Running {
        remote: bool,
        work_id: String,
        provider: Provider,
        model_selection: Option<String>,
        effort_selection: Option<String>,
        session: String,
        freeze_root: String,
        native_session: String,
        runner_id: String,
        input_path: String,
        input: String,
        launched: bool,
        repair: bool,
        steer: Option<RuntimeSteer>,
        steers: Vec<RuntimeSteer>,
        steering: bool,
        steer_delivered: bool,
        rotating: bool,
        stopping: bool,
        repairs: u32,
        attention: bool,
        failure: Option<String>,
        started_at: u64,
        answer: String,
        progress: Option<RunProgress>,
        tokens: Option<u64>,
        model: Option<String>,
        protected_outputs: Vec<String>,
    },
    ArtifactPending {
        remote: bool,
        work_id: String,
        session: Option<String>,
        answer: String,
        kind: ResultKind,
        run: String,
        native_session: String,
        manifest: Vec<DeliveryFile>,
        freeze_root: String,
        started_at: u64,
    },
    Done {
        remote: bool,
        work_id: String,
        session: Option<String>,
        answer: String,
        kind: ResultKind,
        run: Option<String>,
        native_session: String,
        manifest: Vec<DeliveryFile>,
        freeze_root: Option<String>,
        started_at: u64,
        ended_at: Option<u64>,
    },
    Stopped {
        remote: bool,
        work_id: String,
        session: Option<String>,
        freeze_root: Option<String>,
        started_at: u64,
        ended_at: Option<u64>,
        owner: bool,
        reason: String,
    },
}

/// What restoring one record learned from the machine: whether each stored follow-up still
/// reauthorizes (head first), where the Work's immutable input now lives, whether the runner's
/// input still reads, whether the frozen bytes verified again, and whether the freeze root is
/// gone.
pub struct RestoreEvidence {
    pub steers_valid: Vec<bool>,
    pub input_path: Result<String, String>,
    pub runner_input: Result<(), String>,
    pub bytes_verified: bool,
    pub root_missing: bool,
}

pub open spec fn work_id_error() -> Seq<char> {
    "Work identity is invalid"@
}

pub open spec fn native_session_error() -> Seq<char> {
    "Stored native session is invalid"@
}

pub open spec fn artifact_error() -> Seq<char> {
    "Stored artifact result is invalid"@
}

/// ValidIdentity: a Work identity and a present native session without control characters.
pub open spec fn identity_check(work_id: Seq<char>, native_session: Seq<char>) -> Option<Seq<char>> {
    if !valid_identity_text(work_id) {
        Some(work_id_error())
    } else if native_session.len() == 0 || has_control_spec(native_session) {
        Some(native_session_error())
    } else {
        None
    }
}

/// ValidRunningIdentity: as ValidIdentity, but Codex may not have named its session yet.
pub open spec fn running_identity_check(
    work_id: Seq<char>,
    provider: Provider,
    native_session: Seq<char>,
) -> Option<Seq<char>> {
    if !valid_identity_text(work_id) {
        Some(work_id_error())
    } else if has_control_spec(native_session) || (provider == Provider::Claude
        && native_session.len() == 0) {
        Some(native_session_error())
    } else {
        None
    }
}

/// ValidArtifact: a receipt set that can represent one verified product delivery.
pub open spec fn artifact_check(
    work_id: Seq<char>,
    kind: ResultKind,
    run: Seq<char>,
    native_session: Seq<char>,
    manifest: Seq<FileView>,
) -> Option<Seq<char>> {
    match identity_check(work_id, native_session) {
        Some(e) => Some(e),
        None => if kind != ResultKind::Artifact || run.len() == 0 || manifest.len() == 0 || exists|
            i: int,
        | 0 <= i < manifest.len() && (#[trigger] manifest[i]).work_id != work_id {
            Some(artifact_error())
        } else {
            None
        },
    }
}

fn valid_identity_pair(work_id: &str, native_session: &str) -> (r: Result<(), String>)
    ensures
        match identity_check(work_id@, native_session@) {
            Some(e) => r matches Err(m) && m@ == e,
            None => r is Ok,
        },
{
    valid_work_id(work_id)?;
    if crate::text::chars_of(native_session).len() == 0 || has_control(native_session) {
        return Err("Stored native session is invalid".to_owned());
    }
    Ok(())
}

fn valid_running_identity(work_id: &str, provider: Provider, native_session: &str) -> (r: Result<
    (),
    String,
>)
    ensures
        match running_identity_check(work_id@, provider, native_session@) {
            Some(e) => r matches Err(m) && m@ == e,
            None => r is Ok,
        },
{
    valid_work_id(work_id)?;
    if has_control(native_session) || (provider == Provider::Claude && crate::text::chars_of(
        native_session,
    ).len() == 0) {
        return Err("Stored native session is invalid".to_owned());
    }
    Ok(())
}

fn valid_artifact(
    work_id: &str,
    kind: ResultKind,
    run: &str,
    native_session: &str,
    manifest: &Vec<DeliveryFile>,
) -> (r: Result<(), String>)
    ensures
        match artifact_check(work_id@, kind, run@, native_session@, files(manifest@)) {
            Some(e) => r matches Err(m) && m@ == e,
            None => r is Ok,
        },
{
    valid_identity_pair(work_id, native_session)?;
    let mut foreign = false;
    let mut i: usize = 0;
    while i < manifest.len()
        invariant
            i <= manifest@.len(),
            foreign == exists|t: int| 0 <= t < i && (#[trigger] files(manifest@)[t]).work_id != work_id@,
        decreases manifest.len() - i,
    {
        if !same_text(manifest[i].work_id.as_str(), work_id) {
            assert(files(manifest@)[i as int].work_id != work_id@);
            foreign = true;
        }
        i = i + 1;
    }
    if kind != ResultKind::Artifact || crate::text::chars_of(run).len() == 0 || manifest.len() == 0
        || foreign {
        return Err("Stored artifact result is invalid".to_owned());
    }
    Ok(())
}

/// A stored artifact result after its frozen bytes were checked again: Done when every byte
/// still matches, settled without bytes when a Done's freeze root is gone, else still pending.
pub open spec fn artifact_restored(
    remote: bool,
    work_id: Seq<char>,
    session: Option<Seq<char>>,
    answer: Seq<char>,
    kind: ResultKind,
    run: Seq<char>,
    native_session: Seq<char>,
    manifest: Seq<FileView>,
    freeze_root: Seq<char>,
    started_at: u64,
    ended_at: Option<u64>,
    settle_missing: bool,
    bytes_verified: bool,
    root_missing: bool,
) -> EntryView {
    if bytes_verified {
        EntryView::Done(
            DoneView {
                remote,
                work_id,
                session,
                answer,
                kind,
                run: Some(run),
                native_session,
                manifest,
                freeze_root: Some(freeze_root),
                servable: true,
                started_at,
                ended_at,
            },
        )
    } else if settle_missing && root_missing {
        EntryView::Done(
            DoneView {
                remote,
                work_id,
                session,
                answer,
                kind,
                run: Some(run),
                native_session,
                manifest,
                freeze_root: None,
                servable: false,
                started_at,
                ended_at,
            },
        )
    } else {
        EntryView::ArtifactPending(
            PendingView {
                remote,
                work_id,
                session,
                answer,
                kind,
                run,
                native_session,
                manifest,
                freeze_root,
                started_at,
            },
        )
    }
}

/// RestoreArtifact exposes Done only when every frozen byte still matches its verified manifest.
fn restore_artifact(
    remote: bool,
    work_id: String,
    session: Option<String>,
    answer: String,
    kind: ResultKind,
    run: String,
    native_session: String,
    manifest: Vec<DeliveryFile>,
    freeze_root: String,
    started_at: u64,
    ended_at: Option<u64>,
    settle_missing: bool,
    bytes_verified: bool,
    root_missing: bool,
) -> (r: Entry)
    ensures
        r@ == artifact_restored(
            remote,
            work_id@,
            opt_text(session),
            answer@,
            kind,
            run@,
            native_session@,
            files(manifest@),
            freeze_root@,
            started_at,
            ended_at,
            settle_missing,
            bytes_verified,
            root_missing,
        ),
{
    if bytes_verified {
        Entry::Done(
            DoneWork {
                remote,
                work_id,
                session,
                answer,
                kind,
                run: Some(run),
                native_session,
                manifest,
                freeze_root: Some(freeze_root),
                servable: true,
                started_at,
                ended_at,
            },
        )
    } else if settle_missing && root_missing {
        Entry::Done(
            DoneWork {
                remote,
                work_id,
                session,
                answer,
                kind,
                run: Some(run),
                native_session,
                manifest,
                freeze_root: None,
                servable: false,
                started_at,
                ended_at,
            },
        )
    } else {
        Entry::ArtifactPending(
            ArtifactPending {
                remote,
                work_id,
                session,
                answer,
                kind,
                run,
                native_session,
                manifest,
                freeze_root,
                started_at,
            },
        )
    }
}

/// The stored parking label this build renders for a recorded failure.
pub open spec fn parked_label(provider: Provider, failure: Option<Seq<char>>) -> Seq<char> {
    match failure {
        Some(f) => attention_spec(provider, f),
        None => attention_base(),
    }
}

/// A restored Running owner, or why its record cannot be trusted.
pub open spec fn running_restored(saved: SavedWork, ev: RestoreEvidence) -> Result<EntryView, Seq<char>> {
    match saved {
        SavedWork::Running {
            remote,
            work_id,
            provider,
            model_selection,
            effort_selection,
            session,
            freeze_root,
            native_session,
            runner_id,
            input_path,
            input,
            launched,
            repair,
            steer,
            steers,
            steering,
            steer_delivered,
            rotating,
            stopping,
            repairs,
            attention,
            failure,
            started_at,
            answer,
            progress,
            tokens,
            model,
            protected_outputs,
        } => match running_identity_check(work_id@, provider, native_session@) {
            Some(e) => Err(e),
            None => {
                let kept = sanitized(
                    opt_steer(steer),
                    steers_view(steers@),
                    steering,
                    rotating,
                    ev.steers_valid@,
                );
                if kept.2 && kept.3 {
                    Err("Stored steer state is invalid"@)
                } else {
                    let attn = !stopping && (attention || (repairs >= MAX_REPAIRS && failure is Some));
                    let label = parked_label(provider, opt_text(failure));
                    let prog = opt_progress(progress);
                    let shown = if attn && (match prog {
                        Some(p) => p.text != label,
                        None => true,
                    }) {
                        Some(ProgressView { sequence: next_sequence(prog), text: label })
                    } else {
                        prog
                    };
                    match ev.input_path {
                        Err(e) => Err(e@),
                        Ok(path) => if !crate::nonce::nonce_accepted(runner_id@) {
                            Err("Stored runner admission is invalid"@)
                        } else {
                            match ev.runner_input {
                                Err(e) => Err(e@),
                                Ok(_) => {
                                    let steering_now = !stopping && kept.2;
                                    let rotating_now = !stopping && kept.3;
                                    Ok(
                                        EntryView::Running(
                                            RunningView {
                                                remote,
                                                work_id: work_id@,
                                                provider,
                                                model_selection: opt_text(model_selection),
                                                effort_selection: opt_text(effort_selection),
                                                session: session@,
                                                freeze_root: freeze_root@,
                                                native_session: native_session@,
                                                runner_id: runner_id@,
                                                input_path: path@,
                                                launched,
                                                repair,
                                                steer: if stopping {
                                                    None
                                                } else {
                                                    kept.0
                                                },
                                                steers: if stopping {
                                                    Seq::empty()
                                                } else {
                                                    kept.1
                                                },
                                                steering: steering_now,
                                                steer_delivered: steering_now && steer_delivered,
                                                rotating: rotating_now,
                                                stopping,
                                                repairs,
                                                attention: attn,
                                                failure: if attn && failure is None {
                                                    Some(runner_end_text())
                                                } else {
                                                    opt_text(failure)
                                                },
                                                started_at,
                                                answer: answer@,
                                                progress: shown,
                                                tokens,
                                                model: opt_text(model),
                                                protected_outputs: kept_prefix(
                                                    texts(protected_outputs@),
                                                ),
                                                stop_requested: stopping,
                                                turn_stop_requested: rotating_now,
                                            },
                                        ),
                                    )
                                },
                            }
                        },
                    }
                }
            },
        },
        _ => Err(Seq::empty()),
    }
}

/// One restored durable entry, or why its record cannot be trusted.
pub open spec fn restored(saved: SavedWork, ev: RestoreEvidence) -> Result<EntryView, Seq<char>> {
    match saved {
        SavedWork::Running { .. } => running_restored(saved, ev),
        SavedWork::ArtifactPending {
            remote,
            work_id,
            session,
            answer,
            kind,
            run,
            native_session,
            manifest,
            freeze_root,
            started_at,
        } => match artifact_check(work_id@, kind, run@, native_session@, files(manifest@)) {
            Some(e) => Err(e),
            None => Ok(
                artifact_restored(
                    remote,
                    work_id@,
                    opt_text(session),
                    answer@,
                    kind,
                    run@,
                    native_session@,
                    files(manifest@),
                    freeze_root@,
                    started_at,
                    None,
                    false,
                    ev.bytes_verified,
                    ev.root_missing,
                ),
            ),
        },
        SavedWork::Done {
            remote,
            work_id,
            session,
            answer,
            kind,
            run,
            native_session,
            manifest,
            freeze_root,
            started_at,
            ended_at,
        } => match identity_check(work_id@, native_session@) {
            Some(e) => Err(e),
            None => match kind {
                ResultKind::Artifact => match run {
                    None => Err("Stored artifact run is invalid"@),
                    Some(r) => match artifact_check(
                        work_id@,
                        kind,
                        r@,
                        native_session@,
                        files(manifest@),
                    ) {
                        Some(e) => Err(e),
                        None => match freeze_root {
                            Some(root) => Ok(
                                artifact_restored(
                                    remote,
                                    work_id@,
                                    opt_text(session),
                                    answer@,
                                    kind,
                                    r@,
                                    native_session@,
                                    files(manifest@),
                                    root@,
                                    started_at,
                                    ended_at,
                                    true,
                                    ev.bytes_verified,
                                    ev.root_missing,
                                ),
                            ),
                            None => Ok(
                                EntryView::Done(
                                    DoneView {
                                        remote,
                                        work_id: work_id@,
                                        session: opt_text(session),
                                        answer: answer@,
                                        kind,
                                        run: Some(r@),
                                        native_session: native_session@,
                                        manifest: files(manifest@),
                                        freeze_root: None,
                                        servable: false,
                                        started_at,
                                        ended_at,
                                    },
                                ),
                            ),
                        },
                    },
                },
                ResultKind::Answer => if run is Some || manifest@.len() != 0 || is_blank_spec(
                    answer@,
                ) {
                    Err("Stored answer result is invalid"@)
                } else {
                    Ok(
                        EntryView::Done(
                            DoneView {
                                remote,
                                work_id: work_id@,
                                session: opt_text(session),
                                answer: answer@,
                                kind,
                                run: None,
                                native_session: native_session@,
                                manifest: files(manifest@),
                                freeze_root: None,
                                servable: false,
                                started_at,
                                ended_at,
                            },
                        ),
                    )
                },
            },
        },
        SavedWork::Stopped {
            remote,
            work_id,
            session,
            freeze_root,
            started_at,
            ended_at,
            owner,
            reason,
        } => if !valid_identity_text(work_id@) {
            Err(work_id_error())
        } else {
            Ok(
                EntryView::Stopped(
                    StoppedView {
                        remote,
                        work_id: work_id@,
                        session: opt_text(session),
                        freeze_root: opt_text(freeze_root),
                        started_at,
                        ended_at,
                        owner,
                        reason: if owner || !is_blank_spec(reason@) {
                            reason@
                        } else {
                            runner_end_text()
                        },
                    },
                ),
            )
        },
    }
}

/// The restored Running owner of one stored record.
#[verifier::rlimit(30)]
fn restore_running(saved: SavedWork, ev: RestoreEvidence) -> (r: Result<Entry, String>)
    requires
        saved is Running,
    ensures
        match running_restored(saved, ev) {
            Ok(e) => r matches Ok(entry) && entry@ == e,
            Err(m) => r matches Err(x) && x@ == m,
        },
{
    let ghost saved0 = saved;
    let ghost ev0 = ev;
    let SavedWork::Running {
        remote,
        work_id,
        provider,
        model_selection,
        effort_selection,
        session,
        freeze_root,
        native_session,
        runner_id,
        input_path,
        input,
        launched,
        repair,
        steer,
        steers,
        steering,
        steer_delivered,
        rotating,
        stopping,
        repairs,
        attention,
        failure,
        started_at,
        answer,
        progress,
        tokens,
        model,
        protected_outputs,
    } = saved else {
        return Err(String::new());
    };
    valid_running_identity(work_id.as_str(), provider, native_session.as_str())?;
    let (steer, steers, steering, rotating) = sanitized_steers(
        steer,
        steers,
        steering,
        rotating,
        &ev.steers_valid,
    );
    if steering && rotating {
        return Err("Stored steer state is invalid".to_owned());
    }
    let attention = !stopping && (attention || (repairs >= MAX_REPAIRS && failure.is_some()));
    let parked = match &failure {
        Some(reason) => attention_text(provider, reason.as_str()),
        None => "Needs attention".to_owned(),
    };
    let stale = match &progress {
        Some(p) => !same_text(p.text.as_str(), parked.as_str()),
        None => true,
    };
    let progress = if attention && stale {
        Some(RunProgress { sequence: super::repair::next_cursor(&progress), text: parked })
    } else {
        progress
    };
    let input_path = match ev.input_path {
        Ok(path) => path,
        Err(e) => return Err(e),
    };
    if !crate::nonce::valid_nonce(runner_id.as_str()) {
        return Err("Stored runner admission is invalid".to_owned());
    }
    match ev.runner_input {
        Ok(_) => {},
        Err(e) => return Err(e),
    }
    let (steer, steers, steering, rotating) = if stopping {
        (None, Vec::new(), false, false)
    } else {
        (steer, steers, steering, rotating)
    };
    let failure = if attention && failure.is_none() {
        Some(runner_end())
    } else {
        failure
    };
    let protected_outputs = protected_outputs_prefix(protected_outputs);
    let work = Running {
        remote,
        work_id,
        provider,
        model_selection,
        effort_selection,
        session,
        freeze_root,
        native_session,
        runner_id,
        input_path,
        launched,
        repair,
        steer,
        steers,
        steer_delivered: steering && steer_delivered,
        steering,
        rotating,
        stopping,
        repairs,
        attention,
        failure,
        started_at,
        answer,
        progress,
        tokens,
        model,
        protected_outputs,
        stop_requested: stopping,
        turn_stop_requested: rotating,
    };
    proof {
        if stopping {
            assert(steers_view(work.steers@) =~= Seq::<SteerView>::empty());
        }
        reveal_strlit("Needs attention");
    }
    Ok(Entry::Running(work))
}

/// Restore validates terminal shape and never trusts artifact Done without matching frozen bytes.
pub fn restore(saved: SavedWork, ev: RestoreEvidence) -> (r: Result<(String, Entry), String>)
    ensures
        match restored(saved, ev) {
            Ok(e) => r matches Ok((id, entry)) && entry@ == e && id@ == e.id(),
            Err(m) => r matches Err(x) && x@ == m,
        },
{
    match saved {
        SavedWork::Running { .. } => {
            let entry = restore_running(saved, ev)?;
            let id = entry.work_id().clone();
            Ok((id, entry))
        },
        SavedWork::ArtifactPending {
            remote,
            work_id,
            session,
            answer,
            kind,
            run,
            native_session,
            manifest,
            freeze_root,
            started_at,
        } => {
            valid_artifact(work_id.as_str(), kind, run.as_str(), native_session.as_str(), &manifest)?;
            let id = work_id.clone();
            Ok(
                (
                    id,
                    restore_artifact(
                        remote,
                        work_id,
                        session,
                        answer,
                        kind,
                        run,
                        native_session,
                        manifest,
                        freeze_root,
                        started_at,
                        None,
                        false,
                        ev.bytes_verified,
                        ev.root_missing,
                    ),
                ),
            )
        },
        SavedWork::Done {
            remote,
            work_id,
            session,
            answer,
            kind,
            run,
            native_session,
            manifest,
            freeze_root,
            started_at,
            ended_at,
        } => {
            valid_identity_pair(work_id.as_str(), native_session.as_str())?;
            match kind {
                ResultKind::Artifact => {
                    let run = match run {
                        Some(run) => run,
                        None => return Err("Stored artifact run is invalid".to_owned()),
                    };
                    valid_artifact(
                        work_id.as_str(),
                        kind,
                        run.as_str(),
                        native_session.as_str(),
                        &manifest,
                    )?;
                    let id = work_id.clone();
                    match freeze_root {
                        Some(root) => Ok(
                            (
                                id,
                                restore_artifact(
                                    remote,
                                    work_id,
                                    session,
                                    answer,
                                    kind,
                                    run,
                                    native_session,
                                    manifest,
                                    root,
                                    started_at,
                                    ended_at,
                                    true,
                                    ev.bytes_verified,
                                    ev.root_missing,
                                ),
                            ),
                        ),
                        None => Ok(
                            (
                                id,
                                Entry::Done(
                                    DoneWork {
                                        remote,
                                        work_id,
                                        session,
                                        answer,
                                        kind,
                                        run: Some(run),
                                        native_session,
                                        manifest,
                                        freeze_root: None,
                                        servable: false,
                                        started_at,
                                        ended_at,
                                    },
                                ),
                            ),
                        ),
                    }
                },
                ResultKind::Answer => {
                    if run.is_some() || manifest.len() != 0 || is_blank(answer.as_str()) {
                        return Err("Stored answer result is invalid".to_owned());
                    }
                    let id = work_id.clone();
                    Ok(
                        (
                            id,
                            Entry::Done(
                                DoneWork {
                                    remote,
                                    work_id,
                                    session,
                                    answer,
                                    kind,
                                    run: None,
                                    native_session,
                                    manifest,
                                    freeze_root: None,
                                    servable: false,
                                    started_at,
                                    ended_at,
                                },
                            ),
                        ),
                    )
                },
            }
        },
        SavedWork::Stopped {
            remote,
            work_id,
            session,
            freeze_root,
            started_at,
            ended_at,
            owner,
            reason,
        } => {
            valid_work_id(work_id.as_str())?;
            let reason = if owner || !is_blank(reason.as_str()) {
                reason
            } else {
                runner_end()
            };
            let id = work_id.clone();
            Ok(
                (
                    id,
                    Entry::Stopped(
                        StoppedWork {
                            remote,
                            work_id,
                            session,
                            freeze_root,
                            started_at,
                            ended_at,
                            owner,
                            reason,
                        },
                    ),
                ),
            )
        },
    }
}

/// Whether a stored record carries exactly the facts of one durable entry.
pub open spec fn saves(saved: SavedWork, e: EntryView) -> bool {
    match (saved, e) {
        (
            SavedWork::Running {
                remote,
                work_id,
                provider,
                model_selection,
                effort_selection,
                session,
                freeze_root,
                native_session,
                runner_id,
                input_path,
                input,
                launched,
                repair,
                steer,
                steers,
                steering,
                steer_delivered,
                rotating,
                stopping,
                repairs,
                attention,
                failure,
                started_at,
                answer,
                progress,
                tokens,
                model,
                protected_outputs,
            },
            EntryView::Running(w),
        ) => {
            &&& remote == w.remote
            &&& work_id@ == w.work_id
            &&& provider == w.provider
            &&& opt_text(model_selection) == w.model_selection
            &&& opt_text(effort_selection) == w.effort_selection
            &&& session@ == w.session
            &&& freeze_root@ == w.freeze_root
            &&& native_session@ == w.native_session
            &&& runner_id@ == w.runner_id
            &&& input_path@ == w.input_path
            &&& input@.len() == 0
            &&& launched == w.launched
            &&& repair == w.repair
            &&& opt_steer(steer) == w.steer
            &&& steers_view(steers@) == w.steers
            &&& steering == w.steering
            &&& steer_delivered == w.steer_delivered
            &&& rotating == w.rotating
            &&& stopping == w.stopping
            &&& repairs == w.repairs
            &&& attention == w.attention
            &&& opt_text(failure) == w.failure
            &&& started_at == w.started_at
            &&& answer@ == w.answer
            &&& opt_progress(progress) == w.progress
            &&& tokens == w.tokens
            &&& opt_text(model) == w.model
            &&& texts(protected_outputs@) == w.protected_outputs
        },
        (
            SavedWork::ArtifactPending {
                remote,
                work_id,
                session,
                answer,
                kind,
                run,
                native_session,
                manifest,
                freeze_root,
                started_at,
            },
            EntryView::ArtifactPending(w),
        ) => PendingView {
            remote,
            work_id: work_id@,
            session: opt_text(session),
            answer: answer@,
            kind,
            run: run@,
            native_session: native_session@,
            manifest: files(manifest@),
            freeze_root: freeze_root@,
            started_at,
        } == w,
        (
            SavedWork::Done {
                remote,
                work_id,
                session,
                answer,
                kind,
                run,
                native_session,
                manifest,
                freeze_root,
                started_at,
                ended_at,
            },
            EntryView::Done(w),
        ) => DoneView {
            remote,
            work_id: work_id@,
            session: opt_text(session),
            answer: answer@,
            kind,
            run: opt_text(run),
            native_session: native_session@,
            manifest: files(manifest@),
            freeze_root: opt_text(freeze_root),
            servable: w.servable,
            started_at,
            ended_at,
        } == w,
        (
            SavedWork::Stopped {
                remote,
                work_id,
                session,
                freeze_root,
                started_at,
                ended_at,
                owner,
                reason,
            },
            EntryView::Stopped(w),
        ) => StoppedView {
            remote,
            work_id: work_id@,
            session: opt_text(session),
            freeze_root: opt_text(freeze_root),
            started_at,
            ended_at,
            owner,
            reason: reason@,
        } == w,
        _ => false,
    }
}

fn copy_steers(v: &Vec<RuntimeSteer>) -> (r: Vec<RuntimeSteer>)
    ensures
        steers_view(r@) == steers_view(v@),
{
    let mut r: Vec<RuntimeSteer> = Vec::new();
    let mut i: usize = 0;
    while i < v.len()
        invariant
            i <= v.len(),
            r@.len() == i,
            forall|k: int| 0 <= k < i ==> (#[trigger] r@[k])@ == v@[k]@,
        decreases v.len() - i,
    {
        r.push(v[i].copy());
        i = i + 1;
    }
    assert(steers_view(r@) =~= steers_view(v@));
    r
}

/// SaveEntry converts live synchronization state into restart-safe product facts.
pub fn save_entry(entry: &Entry) -> (r: SavedWork)
    ensures
        saves(r, entry@),
{
    match entry {
        Entry::Running(work) => SavedWork::Running {
            remote: work.remote,
            work_id: work.work_id.clone(),
            provider: work.provider,
            model_selection: crate::state::copy_text(&work.model_selection),
            effort_selection: crate::state::copy_text(&work.effort_selection),
            session: work.session.clone(),
            freeze_root: work.freeze_root.clone(),
            native_session: work.native_session.clone(),
            runner_id: work.runner_id.clone(),
            input_path: work.input_path.clone(),
            input: String::new(),
            launched: work.launched,
            repair: work.repair,
            steer: crate::runtime::copy_steer(&work.steer),
            steers: copy_steers(&work.steers),
            steering: work.steering,
            steer_delivered: work.steer_delivered,
            rotating: work.rotating,
            stopping: work.stopping,
            repairs: work.repairs,
            attention: work.attention,
            failure: crate::state::copy_text(&work.failure),
            started_at: work.started_at,
            answer: work.answer.clone(),
            progress: crate::state::copy_progress(&work.progress),
            tokens: work.tokens,
            model: crate::state::copy_text(&work.model),
            protected_outputs: crate::request::copy_texts(&work.protected_outputs),
        },
        Entry::ArtifactPending(work) => SavedWork::ArtifactPending {
            remote: work.remote,
            work_id: work.work_id.clone(),
            session: crate::state::copy_text(&work.session),
            answer: work.answer.clone(),
            kind: work.kind,
            run: work.run.clone(),
            native_session: work.native_session.clone(),
            manifest: crate::state::copy_files(&work.manifest),
            freeze_root: work.freeze_root.clone(),
            started_at: work.started_at,
        },
        Entry::Done(work) => SavedWork::Done {
            remote: work.remote,
            work_id: work.work_id.clone(),
            session: crate::state::copy_text(&work.session),
            answer: work.answer.clone(),
            kind: work.kind,
            run: crate::state::copy_text(&work.run),
            native_session: work.native_session.clone(),
            manifest: crate::state::copy_files(&work.manifest),
            freeze_root: crate::state::copy_text(&work.freeze_root),
            started_at: work.started_at,
            ended_at: work.ended_at,
        },
        Entry::Stopped(work) => SavedWork::Stopped {
            remote: work.remote,
            work_id: work.work_id.clone(),
            session: crate::state::copy_text(&work.session),
            freeze_root: crate::state::copy_text(&work.freeze_root),
            started_at: work.started_at,
            ended_at: work.ended_at,
            owner: work.owner,
            reason: work.reason.clone(),
        },
    }
}

/// A saved terminal end restores as itself, unless it is a runner failure stored without words.
pub proof fn stopped_round_trip(saved: SavedWork, w: StoppedView, ev: RestoreEvidence)
    requires
        saves(saved, EntryView::Stopped(w)),
        valid_identity_text(w.work_id),
        w.owner || !is_blank_spec(w.reason),
    ensures
        restored(saved, ev) == Ok::<EntryView, Seq<char>>(EntryView::Stopped(w)),
{
}

/// A saved answer restores as itself; only the in-memory readiness to serve bytes is dropped.
pub proof fn answer_round_trip(saved: SavedWork, w: DoneView, ev: RestoreEvidence)
    requires
        saves(saved, EntryView::Done(w)),
        w.kind == ResultKind::Answer,
        w.run is None,
        w.manifest.len() == 0,
        w.freeze_root is None,
        !is_blank_spec(w.answer),
        identity_check(w.work_id, w.native_session) is None,
    ensures
        restored(saved, ev) == Ok::<EntryView, Seq<char>>(
            EntryView::Done(DoneView { servable: false, ..w }),
        ),
{
}

/// A saved artifact result restores as itself once its frozen bytes verify again.
pub proof fn artifact_round_trip(saved: SavedWork, w: DoneView, ev: RestoreEvidence)
    requires
        saves(saved, EntryView::Done(w)),
        w.kind == ResultKind::Artifact,
        w.run matches Some(r) && artifact_check(w.work_id, w.kind, r, w.native_session, w.manifest)
            is None,
        w.freeze_root is Some,
        ev.bytes_verified,
    ensures
        restored(saved, ev) == Ok::<EntryView, Seq<char>>(
            EntryView::Done(DoneView { servable: true, ..w }),
        ),
{
}


/// No two follow-ups share an identity.
pub open spec fn distinct_steers(items: Seq<SteerView>) -> bool {
    forall|a: int, b: int| 0 <= a < b < items.len() ==> (#[trigger] items[a]).id != (#[trigger] items[b]).id
}

/// Every follow-up survives a restart when each still reauthorizes and none repeats another.
proof fn lemma_all_survive(items: Seq<SteerView>, valid: Seq<bool>)
    requires
        distinct_steers(items),
        valid.len() >= items.len(),
        forall|i: int| 0 <= i < items.len() ==> #[trigger] valid[i],
    ensures
        surviving(items, valid) == items,
    decreases items.len(),
{
    if items.len() > 0 {
        let p = items.drop_last();
        assert forall|a: int, b: int| 0 <= a < b < p.len() implies (#[trigger] p[a]).id != (
        #[trigger] p[b]).id by {
            assert(p[a] == items[a] && p[b] == items[b]);
        }
        lemma_all_survive(p, valid);
        let last = items.last();
        assert(valid[items.len() - 1]);
        if exists|t: int| 0 <= t < p.len() && (#[trigger] p[t]).id == last.id {
            let t = choose|t: int| 0 <= t < p.len() && (#[trigger] p[t]).id == last.id;
            assert(items[t] == p[t]);
            assert(items[t].id != items[items.len() - 1].id);
        }
        assert(p.push(last) =~= items);
    }
}

/// Each protected output fit beside the ones recorded before it.
pub open spec fn grown_within_bounds(list: Seq<Seq<char>>) -> bool {
    forall|i: int| 0 <= i < list.len() ==> super::protected::fits(#[trigger] list.take(i), list[i])
}

proof fn lemma_kept_whole(list: Seq<Seq<char>>)
    requires
        grown_within_bounds(list),
    ensures
        kept_prefix(list) == list,
    decreases list.len(),
{
    if list.len() > 0 {
        let p = list.drop_last();
        assert forall|i: int| 0 <= i < p.len() implies super::protected::fits(
            #[trigger] p.take(i),
            p[i],
        ) by {
            assert(p.take(i) =~= list.take(i));
            assert(super::protected::fits(list.take(i), list[i]));
        }
        lemma_kept_whole(p);
        assert(list.take(list.len() - 1) =~= p);
        assert(super::protected::fits(list.take(list.len() - 1), list[list.len() - 1]));
        assert(p.push(list.last()) =~= list);
    }
}

/// A saved Running owner restores as itself when its record is settled: every follow-up still
/// reauthorizes and none repeats another, a queue always has a head, only the head owns a turn or
/// a rotation and never both, a delivered head owns its turn, a stopping Work holds no follow-up
/// and is not parked, the owner's Stop and the turn stop are recorded exactly when stopping and
/// rotating, a parked Work carries its cause and shows its label, a Work not parked is not due to
/// park, and its protected set grew within its bounds.
pub proof fn running_round_trip(saved: SavedWork, w: RunningView, ev: RestoreEvidence)
    requires
        saves(saved, EntryView::Running(w)),
        running_identity_check(w.work_id, w.provider, w.native_session) is None,
        ev.input_path matches Ok(p) && p@ == w.input_path,
        ev.runner_input is Ok,
        ev.steers_valid@.len() >= (if w.steer is Some { 1int } else { 0int }) + w.steers.len(),
        forall|i: int| 0 <= i < ev.steers_valid@.len() ==> #[trigger] ev.steers_valid@[i],
        distinct_steers(
            match w.steer {
                Some(h) => seq![h] + w.steers,
                None => w.steers,
            },
        ),
        w.steer is None ==> w.steers.len() == 0 && !w.steering && !w.rotating,
        !(w.steering && w.rotating),
        w.steer_delivered ==> w.steering,
        w.stopping ==> w.steer is None && !w.attention,
        w.stop_requested == w.stopping,
        w.turn_stop_requested == w.rotating,
        w.attention ==> w.failure is Some && (w.progress matches Some(p) && p.text == parked_label(
            w.provider,
            w.failure,
        )),
        !w.attention && !w.stopping ==> !(w.repairs >= MAX_REPAIRS && w.failure is Some),
        grown_within_bounds(w.protected_outputs),
    ensures
        restored(saved, ev) == Ok::<EntryView, Seq<char>>(EntryView::Running(w)),
{
    let items = match w.steer {
        Some(h) => seq![h] + w.steers,
        None => w.steers,
    };
    lemma_all_survive(items, ev.steers_valid@);
    lemma_kept_whole(w.protected_outputs);
    if let Some(h) = w.steer {
        assert(items[0] == h);
        assert(items.drop_first() =~= w.steers);
    }
    match saved {
        SavedWork::Running { .. } => {
            let r = running_restored(saved, ev);
            assert(r matches Ok(EntryView::Running(x)) && x =~= w);
        },
        _ => {},
    }
}

/// The identity a stored record names.
pub open spec fn saved_id(saved: SavedWork) -> Seq<char> {
    match saved {
        SavedWork::Running { work_id, .. } => work_id@,
        SavedWork::ArtifactPending { work_id, .. } => work_id@,
        SavedWork::Done { work_id, .. } => work_id@,
        SavedWork::Stopped { work_id, .. } => work_id@,
    }
}

proof fn lemma_saves_id(saved: SavedWork, e: EntryView)
    requires
        saves(saved, e),
    ensures
        saved_id(saved) == e.id(),
{
}

impl super::store::WorkStore {
    /// Saved writes every durable Work once, in identity order, each exactly as its entry holds it.
    pub fn saved(&self) -> (r: Vec<SavedWork>)
        requires
            self.wf(),
        ensures
            forall|i: int|
                0 <= i < r@.len() ==> self@.contains_key(saved_id(#[trigger] r@[i])) && saves(
                    r@[i],
                    self@[saved_id(r@[i])],
                ),
            forall|k: Seq<char>|
                self@.contains_key(k) ==> exists|i: int| 0 <= i < r@.len() && saved_id(#[trigger] r@[i]) == k,
            forall|i: int, j: int|
                0 <= i < j < r@.len() ==> crate::work_state::order::id_less(
                    saved_id(#[trigger] r@[i]),
                    saved_id(#[trigger] r@[j]),
                ),
    {
        proof {
            self.lemma_rows();
        }
        let ghost rows = crate::work_state::table::views(self.rows());
        let n = self.row_count();
        let mut out: Vec<SavedWork> = Vec::new();
        let mut i: usize = 0;
        while i < n
            invariant
                n == rows.len(),
                rows == crate::work_state::table::views(self.rows()),
                i <= n,
                out@.len() == i,
                forall|j: int| 0 <= j < i ==> saved_id(#[trigger] out@[j]) == rows[j].id() && saves(out@[j], rows[j]),
            decreases n - i,
        {
            let e = self.row(i);
            let saved = save_entry(e);
            proof {
                lemma_saves_id(saved, e@);
            }
            out.push(saved);
            i = i + 1;
        }
        proof {
            assert forall|j: int| 0 <= j < out@.len() implies self@.contains_key(
                saved_id(#[trigger] out@[j]),
            ) && saves(out@[j], self@[saved_id(out@[j])]) by {
                crate::work_state::table::lemma_lookup(rows, j);
            }
            assert forall|k: Seq<char>| self@.contains_key(k) implies exists|j: int|
                0 <= j < out@.len() && saved_id(#[trigger] out@[j]) == k by {
                assert(crate::work_state::table::has_id(rows, k));
                let j = choose|j: int| 0 <= j < rows.len() && (#[trigger] rows[j]).id() == k;
                assert(saved_id(out@[j]) == k);
            }
        }
        out
    }
}

} // verus!
