//! Turn holds the decisions the driver takes inside one physical native turn: what an observation
//! of the runner leads to, how a finished turn settles, and how a dead or rotating turn continues.
//!
//! The driver performs each step (reattach, launch, journal writes, pauses) and hands back what it
//! observed; the step it takes next is decided here.

use vstd::prelude::*;
use super::outcome::CompletionError;

verus! {

/// How one observation of the runner ended.
#[derive(Clone, Copy, PartialEq, Eq, Structural)]
pub enum Observation {
    /// The Provider completed its turn natively.
    Completed,
    /// The observation ended without a completion.
    Ended,
    /// The journal could not be read; `terminal` when its last frame proves the runner is gone.
    Failed { terminal: bool },
}

/// The name under which a turn's end enters the conversation.
#[derive(Clone, Copy, PartialEq, Eq, Structural, Debug)]
pub enum Boundary {
    /// The turn's completion became Done.
    Delivered,
    /// A queued follow-up took the turn over.
    Steered,
    /// The owner stopped the Work.
    Stopped,
}

pub open spec fn boundary_text(b: Boundary) -> Seq<char> {
    match b {
        Boundary::Delivered => "delivered"@,
        Boundary::Steered => "steered"@,
        Boundary::Stopped => "stopped"@,
    }
}

impl Boundary {
    /// The boundary's name as the conversation records it.
    pub fn name(&self) -> (r: String)
        ensures
            r@ == boundary_text(*self),
    {
        match self {
            Boundary::Delivered => "delivered".to_owned(),
            Boundary::Steered => "steered".to_owned(),
            Boundary::Stopped => "stopped".to_owned(),
        }
    }
}

/// A same-session continuation: complete the old runner at `complete`, then resume `session`
/// with `cause` as the reason it is repaired.
#[derive(PartialEq, Eq, Debug)]
pub struct Resume {
    pub complete: u64,
    pub session: String,
    pub cause: String,
}

/// The session a continuation resumes: the one the observer saw, else the one the Work runs.
pub open spec fn resumed_session(observed: Option<Seq<char>>, runtime_session: Seq<char>) -> Seq<char> {
    match observed {
        Some(s) => s,
        None => runtime_session,
    }
}

/// What the driver does after one observation.
#[derive(PartialEq, Eq, Debug)]
pub enum TurnStep {
    /// The observed private outputs are not durable yet: commit them before anything else.
    CommitOutputs,
    /// Settle the completed turn: rotate to a follow-up or deliver it.
    Settle,
    /// Record the owner's Stop, then complete the runner at `known_end` when it is known.
    OwnerStop { known_end: Option<u64> },
    /// The turn ended for a queued follow-up whose runner ended at `complete`: rotate to it.
    Rotate { complete: u64 },
    /// The runner's last sequence is not known yet: observe it again.
    ObserveAgain,
    /// The runner ended without completing: repair the same session with the runner-end cause.
    RepairEnded(Resume),
    /// The runner is still somewhere: reattach to it.
    Reattach,
    /// The runner failed terminally: repair the same session with the failure as its cause.
    RepairFailed(Resume),
    /// Pause as the journal retry schedule says, then reattach.
    RetryReattach,
}

/// NextTurnStep: protected outputs commit before any decision; a completion then always settles;
/// an observation that ended answers the owner's Stop first, then a rotation, then a dead runner;
/// a failed read repairs only when the runner is gone. A rotation or a repair waits for the
/// runner's last sequence (`terminal`); `observed_session` is the session the observer saw,
/// `runtime_session` the one the Work was launched with, `failure` the read's error.
pub fn next_turn_step(
    observed: Observation,
    outputs_committed: bool,
    stop: bool,
    rotated: bool,
    stopped: bool,
    terminal: Option<u64>,
    observed_session: Option<&str>,
    runtime_session: &str,
    failure: &str,
) -> (r: TurnStep)
    ensures
        !outputs_committed ==> r is CommitOutputs,
        outputs_committed ==> match observed {
            Observation::Completed => r is Settle,
            Observation::Ended => if stop {
                r == TurnStep::OwnerStop { known_end: terminal }
            } else if rotated {
                match terminal {
                    Some(s) => r == TurnStep::Rotate { complete: s },
                    None => r is ObserveAgain,
                }
            } else if stopped {
                match terminal {
                    Some(s) => r matches TurnStep::RepairEnded(x) && x.complete == s
                        && x.session@ == resumed_session(
                            match observed_session { Some(o) => Some(o@), None => None },
                            runtime_session@,
                        ) && x.cause@ == super::model::runner_end_text(),
                    None => r is ObserveAgain,
                }
            } else {
                r is Reattach
            },
            Observation::Failed { terminal: gone } => if gone {
                match terminal {
                    Some(s) => r matches TurnStep::RepairFailed(x) && x.complete == s
                        && x.session@ == resumed_session(
                            match observed_session { Some(o) => Some(o@), None => None },
                            runtime_session@,
                        ) && x.cause@ == failure@,
                    None => r is ObserveAgain,
                }
            } else {
                r is RetryReattach
            },
        },
{
    if !outputs_committed {
        return TurnStep::CommitOutputs;
    }
    let session = match observed_session {
        Some(o) => o.to_owned(),
        None => runtime_session.to_owned(),
    };
    match observed {
        Observation::Completed => TurnStep::Settle,
        Observation::Ended => if stop {
            TurnStep::OwnerStop { known_end: terminal }
        } else if rotated {
            match terminal {
                Some(s) => TurnStep::Rotate { complete: s },
                None => TurnStep::ObserveAgain,
            }
        } else if stopped {
            match terminal {
                Some(s) => TurnStep::RepairEnded(
                    Resume { complete: s, session, cause: super::model::runner_end() },
                ),
                None => TurnStep::ObserveAgain,
            }
        } else {
            TurnStep::Reattach
        },
        Observation::Failed { terminal: gone } => if gone {
            match terminal {
                Some(s) => TurnStep::RepairFailed(
                    Resume { complete: s, session, cause: failure.to_owned() },
                ),
                None => TurnStep::ObserveAgain,
            }
        } else {
            TurnStep::RetryReattach
        },
    }
}

/// How one attempt to record the owner's Stop ends.
#[derive(Clone, Copy, PartialEq, Eq, Structural, Debug)]
pub enum StopStep {
    /// The Stop is not durable yet: pause and try again.
    Retry,
    /// Name the turn's end `boundary`, complete the runner at `complete` when its end is known,
    /// and end this driver.
    Close { boundary: Boundary, complete: Option<u64> },
}

pub open spec fn stop_step(recorded: bool, terminal: Option<u64>) -> StopStep {
    if recorded {
        StopStep::Close { boundary: Boundary::Stopped, complete: terminal }
    } else {
        StopStep::Retry
    }
}

/// NextStopStep: a recorded Stop closes the turn as stopped; `recorded` is what marking the
/// owner's Stop returned, `terminal` the runner's last sequence when known.
pub fn next_stop_step(recorded: bool, terminal: Option<u64>) -> (r: StopStep)
    ensures
        r == stop_step(recorded, terminal),
{
    if recorded {
        StopStep::Close { boundary: Boundary::Stopped, complete: terminal }
    } else {
        StopStep::Retry
    }
}

/// How a completed turn settles, one attempt at a time.
#[derive(Clone, Copy, PartialEq, Eq, Structural, Debug)]
pub enum SettleStep {
    /// Record the owner's Stop; the completion is not delivered.
    OwnerStop,
    /// A follow-up took this turn over: name the end `boundary`, complete the runner at
    /// `complete`, then arm the follow-up.
    Steer { boundary: Boundary, complete: u64 },
    /// Nothing was queued: deliver the completion.
    Deliver,
    /// The rotation could not be recorded yet: pause and try again.
    Retry,
}

pub open spec fn settle_step(stop: bool, rotation: Result<bool, ()>, terminal: u64) -> SettleStep {
    if stop {
        SettleStep::OwnerStop
    } else {
        match rotation {
            Ok(true) => SettleStep::Steer { boundary: Boundary::Steered, complete: terminal },
            Ok(false) => SettleStep::Deliver,
            Err(_) => SettleStep::Retry,
        }
    }
}

pub open spec fn rotation_result(rotation: &Result<bool, String>) -> Result<bool, ()> {
    match rotation {
        Ok(b) => Ok(*b),
        Err(_) => Err(()),
    }
}

/// NextSettleStep: the owner's Stop outranks a queued follow-up, which outranks delivery;
/// `rotation` is what recording the follow-up's rotation returned, when the owner did not stop,
/// and `terminal` the completed runner's last sequence.
pub fn next_settle_step(stop: bool, rotation: &Result<bool, String>, terminal: u64) -> (r: SettleStep)
    ensures
        r == settle_step(stop, rotation_result(rotation), terminal),
{
    if stop {
        return SettleStep::OwnerStop;
    }
    match rotation {
        Ok(true) => SettleStep::Steer { boundary: Boundary::Steered, complete: terminal },
        Ok(false) => SettleStep::Deliver,
        Err(_) => SettleStep::Retry,
    }
}

/// How a turn that ended for a queued follow-up rotates, one attempt at a time.
#[derive(Clone, Copy, PartialEq, Eq, Structural, Debug)]
pub enum RotateStep {
    /// The Work is no longer Running: complete the runner at `complete` and end this driver.
    Close { complete: u64 },
    OwnerStop,
    /// Name the end `boundary`, complete the runner at `complete`, then arm the follow-up.
    Steer { boundary: Boundary, complete: u64 },
    /// The rotation was not recorded: pause and try again.
    Retry,
}

pub open spec fn rotate_step(running: bool, stop: bool, rotation: Result<bool, ()>, terminal: u64) -> RotateStep {
    if !running {
        RotateStep::Close { complete: terminal }
    } else if stop {
        RotateStep::OwnerStop
    } else {
        match rotation {
            Ok(true) => RotateStep::Steer { boundary: Boundary::Steered, complete: terminal },
            _ => RotateStep::Retry,
        }
    }
}

/// NextRotateStep: `running` is whether the Work was Running when the rotation began; a rotation
/// that lost its queued message is tried again, never delivered.
pub fn next_rotate_step(running: bool, stop: bool, rotation: &Result<bool, String>, terminal: u64) -> (r: RotateStep)
    ensures
        r == rotate_step(running, stop, rotation_result(rotation), terminal),
{
    if !running {
        return RotateStep::Close { complete: terminal };
    }
    if stop {
        return RotateStep::OwnerStop;
    }
    match rotation {
        Ok(true) => RotateStep::Steer { boundary: Boundary::Steered, complete: terminal },
        _ => RotateStep::Retry,
    }
}

/// How one attempt to deliver a completed turn ends.
#[derive(PartialEq, Eq, Debug)]
pub enum DeliveryStep {
    OwnerStop,
    /// The turn is Done: name its end `boundary`, complete the runner at `complete`, and end
    /// this driver.
    Delivered { boundary: Boundary, complete: u64 },
    /// Durable state was unavailable: pause and try again, keeping the verified result.
    Retry,
    /// The result cannot become truthful Done: repair the completed session with this cause.
    Repair(Resume),
}

/// The end one delivery attempt names: delivered, when the owner did not stop and the
/// completion committed.
pub open spec fn delivery_end(stop: bool, completed: bool) -> Option<Boundary> {
    if !stop && completed {
        Some(Boundary::Delivered)
    } else {
        None
    }
}

/// NextDeliveryStep answers one delivery attempt: the owner's Stop first, then what the
/// completion returned; `terminal` and `session` are the completed runner's last sequence and
/// native session.
pub fn next_delivery_step(stop: bool, completed: Result<(), CompletionError>, terminal: u64, session: &str) -> (r: DeliveryStep)
    ensures
        stop ==> r is OwnerStop,
        named_end(DriverStep::Delivery(r)) == delivery_end(stop, completed is Ok),
        !stop ==> match completed {
            Ok(()) => r == DeliveryStep::Delivered { boundary: Boundary::Delivered, complete: terminal },
            Err(CompletionError::Retry(_)) => r is Retry,
            Err(CompletionError::Repair(reason)) => r matches DeliveryStep::Repair(x)
                && x.complete == terminal && x.session@ == session@ && x.cause@ == reason@,
        },
{
    if stop {
        return DeliveryStep::OwnerStop;
    }
    match completed {
        Ok(()) => DeliveryStep::Delivered { boundary: Boundary::Delivered, complete: terminal },
        Err(CompletionError::Retry(_)) => DeliveryStep::Retry,
        Err(CompletionError::Repair(reason)) => DeliveryStep::Repair(
            Resume { complete: terminal, session: session.to_owned(), cause: reason },
        ),
    }
}

/// How a dead turn continues, one attempt at a time.
#[derive(Clone, Copy, PartialEq, Eq, Structural, Debug)]
pub enum RepairStep {
    /// The old runner is not completed yet: complete it before anything else.
    CompleteRunner,
    /// The Work is no longer Running: this driver ends.
    End,
    OwnerStop,
    /// No session was ever named: park the Work and ask the creator.
    Attention,
    /// Resume the bound session in a replacement runner.
    Repair,
}

pub open spec fn repair_step(runner_completed: bool, running: bool, stop: bool, native_session: Seq<char>) -> RepairStep {
    if !runner_completed {
        RepairStep::CompleteRunner
    } else if !running {
        RepairStep::End
    } else if stop {
        RepairStep::OwnerStop
    } else if native_session.len() == 0 {
        RepairStep::Attention
    } else {
        RepairStep::Repair
    }
}

/// NextRepairStep: the old runner completes first; then a Work that left Running ends the driver,
/// the owner's Stop is answered, and only a named session is resumed.
pub fn next_repair_step(runner_completed: bool, running: bool, stop: bool, native_session: &str) -> (r: RepairStep)
    ensures
        r == repair_step(runner_completed, running, stop, native_session@),
{
    if !runner_completed {
        RepairStep::CompleteRunner
    } else if !running {
        RepairStep::End
    } else if stop {
        RepairStep::OwnerStop
    } else if !super::drive::repairs_session_for(native_session) {
        RepairStep::Attention
    } else {
        RepairStep::Repair
    }
}

/// How a follow-up is armed after its turn ended, one attempt at a time.
#[derive(Clone, Copy, PartialEq, Eq, Structural)]
pub enum ArmStep {
    End,
    OwnerStop,
    /// Discard the ended turn's private freeze first.
    Clear,
    /// Arm the queued follow-up as the next turn.
    Arm,
}

pub open spec fn arm_step(running: bool, stop: bool, cleared: bool) -> ArmStep {
    if !running {
        ArmStep::End
    } else if stop {
        ArmStep::OwnerStop
    } else if !cleared {
        ArmStep::Clear
    } else {
        ArmStep::Arm
    }
}

pub fn next_arm_step(running: bool, stop: bool, cleared: bool) -> (r: ArmStep)
    ensures
        r == arm_step(running, stop, cleared),
{
    if !running {
        ArmStep::End
    } else if stop {
        ArmStep::OwnerStop
    } else if !cleared {
        ArmStep::Clear
    } else {
        ArmStep::Arm
    }
}

/// What one attempt to reach a runner found.
#[derive(Clone, Copy, PartialEq, Eq, Structural)]
pub enum Reach {
    /// The runner is there.
    Found,
    /// No private runner state is left.
    Gone,
    /// The attempt itself failed.
    Failed,
}

/// How one attempt to reattach to a live turn ends.
#[derive(Clone, Copy, PartialEq, Eq, Structural)]
pub enum ReattachStep {
    /// The turn ended or its Work is no longer Running: stop observing.
    GiveUp,
    /// Observe the reattached runner.
    Attached,
    OwnerStop,
    /// Pause and try again.
    Retry,
}

pub open spec fn reattach_step(turn_stop: bool, running: bool, reach: Reach, stop: bool) -> ReattachStep {
    if turn_stop || !running {
        ReattachStep::GiveUp
    } else {
        match reach {
            Reach::Found => ReattachStep::Attached,
            Reach::Gone => if stop {
                ReattachStep::OwnerStop
            } else {
                ReattachStep::Retry
            },
            Reach::Failed => ReattachStep::Retry,
        }
    }
}

/// NextReattachStep: a runner that left no state answers the owner's Stop; anything else is
/// tried again until the turn or the Work ends.
pub fn next_reattach_step(turn_stop: bool, running: bool, reach: Reach, stop: bool) -> (r: ReattachStep)
    ensures
        r == reattach_step(turn_stop, running, reach, stop),
{
    if turn_stop || !running {
        return ReattachStep::GiveUp;
    }
    match reach {
        Reach::Found => ReattachStep::Attached,
        Reach::Gone => if stop {
            ReattachStep::OwnerStop
        } else {
            ReattachStep::Retry
        },
        Reach::Failed => ReattachStep::Retry,
    }
}

/// How one attempt to start a turn that never launched ends.
#[derive(Clone, Copy, PartialEq, Eq, Structural)]
pub enum LaunchStep {
    /// The turn was asked to end: nothing launches.
    End,
    OwnerStop,
    /// Launch the runner.
    Launch,
}

pub open spec fn launch_step(turn_stop: bool, stop: bool) -> LaunchStep {
    if turn_stop {
        LaunchStep::End
    } else if stop {
        LaunchStep::OwnerStop
    } else {
        LaunchStep::Launch
    }
}

pub fn next_launch_step(turn_stop: bool, stop: bool) -> (r: LaunchStep)
    ensures
        r == launch_step(turn_stop, stop),
{
    if turn_stop {
        LaunchStep::End
    } else if stop {
        LaunchStep::OwnerStop
    } else {
        LaunchStep::Launch
    }
}

/// Whether a replayed rotation observation proves the old turn over: it rotated, was asked to end,
/// or the owner stopped, and its runner's last sequence is known.
pub open spec fn rotation_over(
    read: bool,
    rotated: bool,
    turn_stop: bool,
    stop: bool,
    sequence_known: bool,
) -> bool {
    read && (rotated || turn_stop || stop) && sequence_known
}

/// RotationOver decides whether the old turn of a follow-up rotation is finished; `read` is
/// whether the observation read the journal without error.
pub fn rotation_finished(read: bool, rotated: bool, turn_stop: bool, stop: bool, sequence_known: bool) -> (r: bool)
    ensures
        r == rotation_over(read, rotated, turn_stop, stop, sequence_known),
{
    read && (rotated || turn_stop || stop) && sequence_known
}

/// Every step answers the owner's Stop before doing anything else that runs the Agent on: once
/// the owner asked to stop, no settlement, rotation, repair or arming launches more work.
pub proof fn stop_dominates(rotation: Result<bool, ()>, terminal: u64, session: Seq<char>, cleared: bool, turn_stop: bool)
    ensures
        settle_step(true, rotation, terminal) == SettleStep::OwnerStop,
        rotate_step(true, true, rotation, terminal) == RotateStep::OwnerStop,
        repair_step(true, true, true, session) == RepairStep::OwnerStop,
        arm_step(true, true, cleared) == ArmStep::OwnerStop,
        launch_step(turn_stop, true) != LaunchStep::Launch,
        reattach_step(turn_stop, true, Reach::Gone, true) != ReattachStep::Retry,
{
}

/// Each end of a turn is named once, by the step that ends it, and the three names differ: a
/// recorded Stop names it stopped, a follow-up that took the turn over names it steered.
pub proof fn boundaries_are_named_by_their_end(recorded: bool, terminal: Option<u64>, stop: bool, rotation: Result<bool, ()>, sequence: u64, running: bool)
    ensures
        stop_step(recorded, terminal) matches StopStep::Close { boundary, .. } ==> boundary == Boundary::Stopped,
        settle_step(stop, rotation, sequence) matches SettleStep::Steer { boundary, .. } ==> boundary == Boundary::Steered,
        rotate_step(running, stop, rotation, sequence) matches RotateStep::Steer { boundary, .. } ==> boundary == Boundary::Steered,
        boundary_text(Boundary::Delivered) != boundary_text(Boundary::Steered),
        boundary_text(Boundary::Delivered) != boundary_text(Boundary::Stopped),
        boundary_text(Boundary::Steered) != boundary_text(Boundary::Stopped),
{
    reveal_strlit("delivered");
    reveal_strlit("steered");
    reveal_strlit("stopped");
    assert(boundary_text(Boundary::Delivered)[0] != boundary_text(Boundary::Steered)[0]);
    assert(boundary_text(Boundary::Delivered)[0] != boundary_text(Boundary::Stopped)[0]);
    assert(boundary_text(Boundary::Steered)[2] != boundary_text(Boundary::Stopped)[2]);
}

/// One step the driver takes while a turn lasts, of whichever kind.
pub enum DriverStep {
    Turn(TurnStep),
    Stop(StopStep),
    Settle(SettleStep),
    Rotate(RotateStep),
    Delivery(DeliveryStep),
    Repair(RepairStep),
}

/// The end a step names for the conversation, if it names one.
pub open spec fn named_end(s: DriverStep) -> Option<Boundary> {
    match s {
        DriverStep::Stop(StopStep::Close { boundary, .. }) => Some(boundary),
        DriverStep::Settle(SettleStep::Steer { boundary, .. }) => Some(boundary),
        DriverStep::Rotate(RotateStep::Steer { boundary, .. }) => Some(boundary),
        DriverStep::Delivery(DeliveryStep::Delivered { boundary, .. }) => Some(boundary),
        _ => None,
    }
}

/// Whether a step leaves the turn for good: it closes it, hands it to a follow-up or to a
/// repair, or finds the Work no longer Running.
pub open spec fn ends_turn(s: DriverStep) -> bool {
    match s {
        DriverStep::Turn(t) => t is RepairEnded || t is RepairFailed,
        DriverStep::Stop(t) => t is Close,
        DriverStep::Settle(t) => t is Steer,
        DriverStep::Rotate(t) => t is Close || t is Steer,
        DriverStep::Delivery(t) => t is Delivered || t is Repair,
        DriverStep::Repair(t) => t is End || t is Attention || t is Repair,
    }
}

/// The steps of one turn: nothing before the last step leaves it.
pub open spec fn one_turn(steps: Seq<DriverStep>) -> bool {
    steps.len() > 0 && forall|i: int| 0 <= i < steps.len() - 1 ==> !ends_turn(#[trigger] steps[i])
}

/// A turn ends under at most one name, delivered, steered or stopped: only the step that leaves
/// the turn names its end, so no step before it names one and no later step of the same turn
/// exists. A delivery names it delivered, a follow-up steered, the owner's Stop stopped.
pub proof fn a_turn_names_one_end(steps: Seq<DriverStep>)
    requires
        one_turn(steps),
    ensures
        forall|s: DriverStep| #[trigger] named_end(s) is Some ==> ends_turn(s),
        forall|i: int|
            0 <= i < steps.len() && #[trigger] named_end(steps[i]) is Some ==> i == steps.len() - 1,
        forall|i: int, j: int|
            0 <= i < steps.len() && 0 <= j < steps.len() && #[trigger] named_end(steps[i]) is Some
                && #[trigger] named_end(steps[j]) is Some ==> i == j,
{
    assert forall|i: int| 0 <= i < steps.len() && #[trigger] named_end(steps[i]) is Some implies i == steps.len() - 1 by {
        if i < steps.len() - 1 {
            assert(!ends_turn(steps[i]));
        }
    }
}

/// Which end each kind of step names: a recorded Stop names it stopped, a follow-up that took
/// the turn over names it steered, a completion that committed names it delivered; an
/// observation or a repair step names none.
pub proof fn each_end_has_one_source(
    recorded: bool,
    known_end: Option<u64>,
    stop: bool,
    rotation: Result<bool, ()>,
    terminal: u64,
    running: bool,
    completed: bool,
    t: TurnStep,
    r: RepairStep,
)
    ensures
        named_end(DriverStep::Stop(stop_step(recorded, known_end))) == (if recorded {
            Some(Boundary::Stopped)
        } else {
            None
        }),
        named_end(DriverStep::Settle(settle_step(stop, rotation, terminal))) == (if !stop && rotation
            == Ok::<bool, ()>(true) {
            Some(Boundary::Steered)
        } else {
            None
        }),
        named_end(DriverStep::Rotate(rotate_step(running, stop, rotation, terminal))) == (if running
            && !stop && rotation == Ok::<bool, ()>(true) {
            Some(Boundary::Steered)
        } else {
            None
        }),
        delivery_end(stop, completed) == (if !stop && completed {
            Some(Boundary::Delivered)
        } else {
            None
        }),
        named_end(DriverStep::Turn(t)) is None,
        named_end(DriverStep::Repair(r)) is None,
{
}

} // verus!
