//! Outcome holds the decisions the Work engine takes between its durable writes: how a Start is
//! admitted, how a follow-up and a Stop are answered, and what a verified completion commits.
//!
//! Durable writes, waiting and notification stay with the caller; each decision here is a function
//! of the store and the facts the caller observed.

use vstd::prelude::*;
use crate::egress::{any_exposed, env_view, redact_answer_spec, roots, validate_egress};
use crate::evidence::{
    consistent, delivered_answer, opt_text, owned_by, ArtifactFact, DeliveredWork, ResultKind,
};
use crate::runtime::RuntimeRecovery;
use crate::text::valid_identity_text;
use crate::text::{is_blank, is_blank_spec, same_text};
use super::model::EntryView;
use super::store::WorkStore;

verus! {

/// How a Start meets the identity it names.
pub enum Admission {
    /// No Work holds this identity yet: the caller prepares and inserts one.
    Fresh,
    /// The same control plane already admitted it: Start is idempotent.
    Already,
    /// A re-leased Account Start upgraded a Work the old relay admitted locally.
    Upgraded,
}

pub open spec fn foreign_text() -> Seq<char> {
    "Work identity belongs to another control plane"@
}

impl WorkStore {
    /// AdmitProvenance answers one Start for an identity: fresh, already admitted, upgraded to
    /// Account ownership, or refused because another control plane owns it.
    pub fn admit_provenance(&mut self, work_id: &str, remote: bool) -> (r: Result<Admission, String>)
        requires
            old(self).wf(),
        ensures
            final(self).wf(),
            final(self).owned() == old(self).owned(),
            !old(self)@.contains_key(work_id@) ==> (r matches Ok(Admission::Fresh) && final(self)@
                == old(self)@),
            old(self)@.contains_key(work_id@) && old(self)@[work_id@].remote() == remote ==> (r matches Ok(
                Admission::Already,
            ) && final(self)@ == old(self)@),
            old(self)@.contains_key(work_id@) && old(self)@[work_id@].remote() != remote && remote
                ==> (r matches Ok(Admission::Upgraded) && final(self)@ == old(self)@.insert(
                work_id@,
                old(self)@[work_id@].with_remote(true),
            )),
            old(self)@.contains_key(work_id@) && old(self)@[work_id@].remote() != remote && !remote
                ==> (r matches Err(e) && e@ == foreign_text()) && final(self)@ == old(self)@,
    {
        match self.is_remote(work_id) {
            None => Ok(Admission::Fresh),
            Some(existing) => {
                if existing == remote {
                    Ok(Admission::Already)
                } else if remote {
                    let marked = self.mark_remote(work_id);
                    assert(marked);
                    Ok(Admission::Upgraded)
                } else {
                    Err("Work identity belongs to another control plane".to_string())
                }
            },
        }
    }
}

/// How a prepared Work meets the table once its workspace is ready.
pub enum Insertion {
    /// It is now the identity's Running owner.
    Inserted,
    /// The same control plane admitted it meanwhile: the prepared workspace is discarded.
    Duplicate,
}

impl WorkStore {
    /// AdmitRunning publishes one prepared Running owner unless its identity was admitted while
    /// it was prepared: by the same control plane, the Start is a duplicate; by another, refused.
    pub fn admit_running(&mut self, running: super::model::Running) -> (r: Result<Insertion, String>)
        requires
            old(self).wf(),
        ensures
            final(self).wf(),
            final(self).owned() == old(self).owned(),
            !old(self)@.contains_key(running@.work_id) ==> (r matches Ok(Insertion::Inserted))
                && final(self)@ == old(self)@.insert(running@.work_id, EntryView::Running(running@)),
            old(self)@.contains_key(running@.work_id) && old(self)@[running@.work_id].remote()
                == running@.remote ==> (r matches Ok(Insertion::Duplicate)) && final(self)@ == old(
                self,
            )@,
            old(self)@.contains_key(running@.work_id) && old(self)@[running@.work_id].remote()
                != running@.remote ==> (r matches Err(e) && e@ == foreign_text()) && final(self)@
                == old(self)@,
    {
        match self.is_remote(running.work_id.as_str()) {
            Some(existing) => if existing != running.remote {
                Err("Work identity belongs to another control plane".to_string())
            } else {
                Ok(Insertion::Duplicate)
            },
            None => {
                self.insert_running(running);
                Ok(Insertion::Inserted)
            },
        }
    }
}

/// The refusals of a follow-up that mean only that no Running owner will take it.
pub open spec fn quiet_refusal(reason: Seq<char>) -> bool {
    reason == "Work is not Running"@ || reason == "Work is stopping"@
}

/// SteerRefusal answers a follow-up the store refused: a Work that is no longer Running or is
/// stopping simply does not take it; any other refusal is the caller's error.
pub fn steer_refusal(reason: String) -> (r: Result<bool, String>)
    ensures
        quiet_refusal(reason@) ==> r == Ok::<bool, String>(false),
        !quiet_refusal(reason@) ==> (r matches Err(e) && e@ == reason@),
{
    if same_text(reason.as_str(), "Work is not Running") || same_text(
        reason.as_str(),
        "Work is stopping",
    ) {
        Ok(false)
    } else {
        Err(reason)
    }
}

/// CompletionError separates repairable user-value gaps from transient durable commit failures.
pub enum CompletionError {
    /// Repair continues the same native Work because its terminal output cannot become truthful Done.
    Repair(String),
    /// Retry preserves the verified result while local durable state is temporarily unavailable.
    Retry(String),
}

pub open spec fn session_mismatch_text() -> Seq<char> {
    "Provider native session does not match this Work"@
}

/// CheckSession accepts a completion only from the native session this Work is bound to.
pub fn check_session(bound: &str, observed: &str) -> (r: Result<(), CompletionError>)
    ensures
        bound@ == observed@ ==> r is Ok,
        bound@ != observed@ ==> (r matches Err(CompletionError::Repair(e)) && e@
            == session_mismatch_text()),
{
    if same_text(bound, observed) {
        Ok(())
    } else {
        Err(CompletionError::Repair("Provider native session does not match this Work".to_string()))
    }
}

/// The answer a completion delivers: the durable answer the Running Work accumulated, unless it
/// is blank, in which case the answer the runner observed.
pub open spec fn chosen_answer(durable: Seq<char>, observed: Option<Seq<char>>) -> Option<Seq<char>> {
    if is_blank_spec(durable) {
        observed
    } else {
        Some(durable)
    }
}

impl WorkStore {
    /// CompletionAnswer picks the answer a completion of `work_id` delivers; a Work that is no
    /// longer Running has no durable answer.
    pub fn completion_answer(&self, work_id: &str, observed: Option<String>) -> (r: Option<String>)
        requires
            self.wf(),
        ensures
            opt_text(r) == chosen_answer(
                match super::store::running_of(self@, work_id@) {
                    Some(w) => w.answer,
                    None => Seq::empty(),
                },
                opt_text(observed),
            ),
    {
        match self.running_ref(work_id) {
            Some(w) => if is_blank(w.answer.as_str()) {
                observed
            } else {
                Some(w.answer.clone())
            },
            None => {
                proof {
                    assert(is_blank_spec(Seq::<char>::empty()));
                }
                observed
            },
        }
    }
}

/// What verifying one delivery returns, as `DeliveredWork::verified` decides it, with each
/// refusal a repair of the same session.
pub open spec fn verdict(
    work_id: Seq<char>,
    answer: Option<Seq<char>>,
    artifacts: Seq<ArtifactFact>,
    r: Result<DeliveredWork, CompletionError>,
) -> bool {
    if !valid_identity_text(work_id) {
        r matches Err(CompletionError::Repair(e)) && e@ == "Work identity is invalid"@
    } else if !owned_by(artifacts, work_id) {
        r matches Err(CompletionError::Repair(e)) && e@ == "Provider artifact ownership is invalid"@
    } else if !consistent(artifacts) {
        r matches Err(CompletionError::Repair(e)) && e@ == "Provider artifact delivery is inconsistent"@
    } else if delivered_answer(answer).len() == 0 && artifacts.len() == 0 {
        r matches Err(CompletionError::Repair(e)) && e@
            == "Provider completed without a reply or artifact"@
    } else {
        r matches Ok(d) && d.spec_answer() == delivered_answer(answer) && d.spec_artifacts()
            == artifacts && d.spec_kind() == (if artifacts.len() == 0 {
            ResultKind::Answer
        } else {
            ResultKind::Artifact
        })
    }
}

/// The names of delivered artifacts.
pub open spec fn artifact_names(artifacts: Seq<ArtifactFact>) -> Seq<String> {
    artifacts.map_values(|a: ArtifactFact| a.name)
}

/// Whether any delivered artifact's name or bytes carry one of the binding's private facts.
pub open spec fn delivery_exposed(
    artifacts: Seq<ArtifactFact>,
    content_unsafe: Seq<bool>,
    b: RuntimeRecovery,
    env: Seq<(Seq<char>, Seq<char>)>,
) -> bool {
    any_exposed(
        artifact_names(artifacts),
        content_unsafe,
        b.runner_id@,
        roots(b.session@, b.input_path@, b.freeze_root@),
        env,
    )
}

/// The answer a delivery carries after the egress gate redacted it.
pub open spec fn redacted_as(chosen: Option<Seq<char>>, b: RuntimeRecovery, env: Seq<(Seq<char>, Seq<char>)>, answer: Option<Seq<char>>) -> bool {
    match chosen {
        Some(a) => answer matches Some(x) && redact_answer_spec(
            b.runner_id@,
            b.session@,
            b.input_path@,
            b.freeze_root@,
            a,
            env,
            x,
        ),
        None => answer is None,
    }
}

fn names_of(artifacts: &Vec<ArtifactFact>) -> (r: Vec<String>)
    ensures
        r@ == artifact_names(artifacts@),
{
    let mut r: Vec<String> = Vec::new();
    let mut i: usize = 0;
    while i < artifacts.len()
        invariant
            i <= artifacts@.len(),
            r@ == artifact_names(artifacts@).take(i as int),
        decreases artifacts.len() - i,
    {
        r.push(artifacts[i].name.clone());
        proof {
            assert(artifact_names(artifacts@).take(i + 1) =~= artifact_names(artifacts@).take(
                i as int,
            ).push(artifacts@[i as int].name));
        }
        i = i + 1;
    }
    proof {
        assert(artifact_names(artifacts@).take(artifacts@.len() as int) =~= artifact_names(
            artifacts@,
        ));
    }
    r
}

impl WorkStore {
    /// VerifyCompletion accepts a native completion only when the answer or every artifact
    /// verifies: the binding must still exist and name the session that completed, the frozen
    /// receipt and the Work's inputs must read, nothing delivered may carry a private fact, and
    /// the result must be owned, consistent and non-empty. The answer delivered is the Work's own
    /// durable answer unless it is blank, redacted.
    ///
    /// `binding` is the Work's Running binding; `receipt` the frozen delivery receipt read from
    /// disk; `inputs` whether its inputs still validate; `content_unsafe[i]` whether the `i`th
    /// artifact's bytes carry a private fact or could not be read.
    pub fn verify_completion(
        &self,
        work_id: &str,
        binding: Option<&RuntimeRecovery>,
        observed_session: &str,
        observed_answer: Option<String>,
        receipt: Result<Vec<ArtifactFact>, String>,
        inputs: Result<(), String>,
        content_unsafe: &Vec<bool>,
        env: &Vec<(String, String)>,
    ) -> (r: Result<DeliveredWork, CompletionError>)
        requires
            self.wf(),
            receipt matches Ok(a) ==> content_unsafe@.len() == a@.len(),
        ensures
            match binding {
                None => r matches Err(CompletionError::Retry(e)) && e@
                    == "Running Work binding is unavailable"@,
                Some(b) => if b.native_session@ != observed_session@ {
                    r matches Err(CompletionError::Repair(e)) && e@ == session_mismatch_text()
                } else {
                    match receipt {
                        Err(m) => r matches Err(CompletionError::Repair(e)) && e@ == m@,
                        Ok(artifacts) => match inputs {
                            Err(m) => r matches Err(CompletionError::Repair(e)) && e@ == m@,
                            Ok(_) => if delivery_exposed(
                                artifacts@,
                                content_unsafe@,
                                *b,
                                env_view(env@),
                            ) {
                                r matches Err(CompletionError::Repair(e)) && e@
                                    == crate::egress::boundary_repair_text()
                            } else {
                                exists|answer: Option<Seq<char>>|
                                    #![trigger verdict(work_id@, answer, artifacts@, r)]
                                    redacted_as(
                                        chosen_answer(
                                            match super::store::running_of(self@, work_id@) {
                                                Some(w) => w.answer,
                                                None => Seq::empty(),
                                            },
                                            opt_text(observed_answer),
                                        ),
                                        *b,
                                        env_view(env@),
                                        answer,
                                    ) && verdict(work_id@, answer, artifacts@, r)
                            },
                        },
                    }
                },
            },
    {
        let b = match binding {
            Some(b) => b,
            None => return Err(CompletionError::Retry("Running Work binding is unavailable".to_string())),
        };
        check_session(b.native_session.as_str(), observed_session)?;
        let artifacts = match receipt {
            Ok(a) => a,
            Err(e) => return Err(CompletionError::Repair(e)),
        };
        let mut answer = self.completion_answer(work_id, observed_answer);
        let ghost chosen = opt_text(answer);
        if let Err(e) = inputs {
            return Err(CompletionError::Repair(e));
        }
        let names = names_of(&artifacts);
        let gate = validate_egress(
            b.runner_id.as_str(),
            b.session.as_str(),
            b.input_path.as_str(),
            b.freeze_root.as_str(),
            &mut answer,
            &names,
            content_unsafe,
            env,
        );
        if let Err(e) = gate {
            return Err(CompletionError::Repair(e));
        }
        let ghost redacted = opt_text(answer);
        let r = match DeliveredWork::verified(work_id.to_string(), answer, artifacts) {
            Ok(d) => Ok(d),
            Err(e) => Err(CompletionError::Repair(e)),
        };
        assert(redacted_as(chosen, *b, env_view(env@), redacted));
        assert(verdict(work_id@, redacted, artifacts@, r));
        r
    }
}

/// Whether a completion rebinds its conversation: a Work that ended before its session bound names
/// none, and a Work that forked its own session never takes the conversation from the Work that
/// still holds the bound one.
pub open spec fn rebinds(observed: Seq<char>, bound: Option<Seq<char>>, leased: bool) -> bool {
    observed.len() != 0 && !(match bound {
        Some(b) => b != observed && leased,
        None => false,
    })
}

/// BindsConversation decides whether the observed native session becomes the conversation's
/// binding; `bound` is the session the conversation names now, and `leased` whether another live
/// Work holds that session.
pub fn binds_conversation(observed: &str, bound: Option<&str>, leased: bool) -> (r: bool)
    ensures
        r == rebinds(observed@, match bound {
            Some(b) => Some(b@),
            None => None,
        }, leased),
{
    if crate::text::chars_of(observed).len() == 0 {
        return false;
    }
    match bound {
        Some(b) => !(!same_text(b, observed) && leased),
        None => true,
    }
}

/// The run a delivered product is filed under: only a product with files has one, named by its
/// frozen directory, or by the Work itself when that directory has no printable name.
pub open spec fn run_name(files: bool, freeze_name: Option<Seq<char>>, work_id: Seq<char>) -> Option<
    Seq<char>,
> {
    if files {
        Some(
            match freeze_name {
                Some(n) => n,
                None => work_id,
            },
        )
    } else {
        None
    }
}

pub fn delivered_run(files: bool, freeze_name: Option<String>, work_id: &str) -> (r: Option<String>)
    ensures
        opt_text(r) == run_name(files, opt_text(freeze_name), work_id@),
{
    if files {
        match freeze_name {
            Some(n) => Some(n),
            None => Some(work_id.to_string()),
        }
    } else {
        None
    }
}

/// The first pause between attempts to commit an owner Stop, in milliseconds.
pub const STOP_COMMIT_INITIAL_MS: u64 = 25;
/// Attempts to commit an owner Stop are never further apart than this.
pub const STOP_COMMIT_MAX_MS: u64 = 1000;

pub open spec fn stop_pause_after(pause: u64) -> u64 {
    if 2 * pause < STOP_COMMIT_MAX_MS {
        (2 * pause) as u64
    } else {
        STOP_COMMIT_MAX_MS
    }
}

/// StopRetry doubles the pause before the next attempt to commit a Stop, never past the cap.
pub fn stop_retry(pause: u64) -> (r: u64)
    ensures
        r == stop_pause_after(pause),
{
    if pause < STOP_COMMIT_MAX_MS / 2 {
        pause * 2
    } else {
        STOP_COMMIT_MAX_MS
    }
}

/// Whether the store holds Account-owned terminal truth for `id`.
pub open spec fn terminal(m: Map<Seq<char>, EntryView>, id: Seq<char>) -> bool {
    m.contains_key(id) && (m[id] is Done || m[id] is Stopped)
}

pub open spec fn refused_running_text() -> Seq<char> {
    "Account refused a Work that is still Running"@
}

pub open spec fn acknowledged_running_text() -> Seq<char> {
    "Account acknowledged a Work that is still Running"@
}

impl WorkStore {
    /// SettleRefused accepts Account's refusal of a delivery only for terminal truth; a Work still
    /// executing keeps running and the refusal is answered as an error. Nothing is deleted either way.
    pub fn settle_refused(&self, work_id: &str) -> (r: Result<(), String>)
        requires
            self.wf(),
        ensures
            (self@.contains_key(work_id@) && !terminal(self@, work_id@)) ==> (r matches Err(e) && e@
                == refused_running_text()),
            !(self@.contains_key(work_id@) && !terminal(self@, work_id@)) ==> r is Ok,
    {
        if self.terminal_paths(work_id).is_none() && self.contains(work_id) {
            return Err("Account refused a Work that is still Running".to_string());
        }
        Ok(())
    }

    /// AcknowledgedPaths names the private trees an Account acknowledgement may delete: those of a
    /// terminal Work; none for an identity this store no longer holds; and a Work still Running is
    /// answered as an error.
    pub fn acknowledged_paths(&self, work_id: &str) -> (r: Result<
        Option<(Option<String>, Option<String>)>,
        String,
    >)
        requires
            self.wf(),
        ensures
            terminal(self@, work_id@) ==> (r matches Ok(Some((session, freeze))) && match self@[work_id@] {
                EntryView::Done(w) => opt_text(session) == w.session && opt_text(freeze)
                    == w.freeze_root,
                EntryView::Stopped(w) => opt_text(session) == w.session && opt_text(freeze)
                    == w.freeze_root,
                _ => false,
            }),
            !self@.contains_key(work_id@) ==> (r matches Ok(None)),
            self@.contains_key(work_id@) && !terminal(self@, work_id@) ==> (r matches Err(e) && e@
                == acknowledged_running_text()),
    {
        match self.terminal_paths(work_id) {
            Some(paths) => Ok(Some(paths)),
            None => if self.contains(work_id) {
                Err("Account acknowledged a Work that is still Running".to_string())
            } else {
                Ok(None)
            },
        }
    }
}

} // verus!
