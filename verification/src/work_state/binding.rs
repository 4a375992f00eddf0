//! Binding projects one durable Running owner onto the facts every resume and delivery path needs.
//!
//! The conversation a Work answers to and whether it resumes live in the Work's own stored input,
//! which the caller reads and hands in.

use vstd::prelude::*;
use crate::evidence::opt_text;
use crate::runtime::{copy_steer, opt_steer, RuntimeRecovery};
use crate::state::copy_text;
use super::model::{Running, RunningView};
use super::store::{running_of, WorkStore};

verus! {

/// `r` carries exactly the durable facts of `w`, the stored `conversation` and `resume`, and the
/// head follow-up only while it owns the current turn.
pub open spec fn recovery_fits(
    r: RuntimeRecovery,
    w: RunningView,
    conversation: Seq<char>,
    resume: bool,
) -> bool {
    &&& r.work_id@ == w.work_id
    &&& r.conversation@ == conversation
    &&& r.provider == w.provider
    &&& opt_text(r.model_selection) == w.model_selection
    &&& opt_text(r.effort_selection) == w.effort_selection
    &&& r.session@ == w.session
    &&& r.freeze_root@ == w.freeze_root
    &&& r.native_session@ == w.native_session
    &&& r.resume == resume
    &&& r.runner_id@ == w.runner_id
    &&& r.started_at == w.started_at
    &&& r.input_path@ == w.input_path
    &&& opt_steer(r.steer) == (if w.steering { w.steer } else { None })
    &&& r.steer_delivered == w.steer_delivered
    &&& r.rotating == w.rotating
    &&& r.repair == w.repair
    &&& opt_text(r.failure) == w.failure
    &&& r.launched == w.launched
}

/// Recovery projects one durable Running record with its stored conversation.
pub fn recovery(work: &Running, conversation: String, resume: bool) -> (r: RuntimeRecovery)
    ensures
        recovery_fits(r, work@, conversation@, resume),
{
    let steer = if work.steering {
        copy_steer(&work.steer)
    } else {
        None
    };
    RuntimeRecovery {
        work_id: work.work_id.clone(),
        conversation,
        provider: work.provider,
        model_selection: copy_text(&work.model_selection),
        effort_selection: copy_text(&work.effort_selection),
        session: work.session.clone(),
        freeze_root: work.freeze_root.clone(),
        native_session: work.native_session.clone(),
        resume,
        runner_id: work.runner_id.clone(),
        started_at: work.started_at,
        input_path: work.input_path.clone(),
        steer,
        steer_delivered: work.steer_delivered,
        rotating: work.rotating,
        repair: work.repair,
        failure: copy_text(&work.failure),
        launched: work.launched,
    }
}

impl WorkStore {
    /// Binding exposes one durable Running owner, parked or executing, so parked bytes can still
    /// deliver; `stored` is what the Work's own input file records, when it could be read.
    pub fn binding(&self, work_id: &str, stored: Option<(String, bool)>) -> (r: Option<
        RuntimeRecovery,
    >)
        requires
            self.wf(),
        ensures
            match (running_of(self@, work_id@), stored) {
                (Some(w), Some((conversation, resume))) => r matches Some(x) && recovery_fits(
                    x,
                    w,
                    conversation@,
                    resume,
                ),
                _ => r is None,
            },
    {
        match (self.running_ref(work_id), stored) {
            (Some(w), Some((conversation, resume))) => Some(recovery(w, conversation, resume)),
            _ => None,
        }
    }
}

} // verus!
