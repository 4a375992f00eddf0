use archigoat::work_state::model::message_identity;
use archigoat::work_state::outcome::CompletionError;
use archigoat::work_state::turn::{
    next_arm_step, next_delivery_step, next_launch_step, next_reattach_step, next_repair_step,
    next_rotate_step, next_settle_step, next_stop_step, next_turn_step, rotation_finished,
    ArmStep, Boundary, DeliveryStep, LaunchStep, Observation, Reach, ReattachStep, RepairStep,
    Resume, RotateStep, SettleStep, StopStep, TurnStep,
};

fn step(observed: Observation, stop: bool, rotated: bool, stopped: bool, terminal: Option<u64>) -> TurnStep {
    next_turn_step(observed, true, stop, rotated, stopped, terminal, Some("thread-seen"), "thread-run", "journal broke")
}

#[test]
fn protected_outputs_commit_before_any_decision() {
    let r = next_turn_step(Observation::Completed, false, true, true, true, Some(9), None, "t", "");
    assert_eq!(r, TurnStep::CommitOutputs);
}

#[test]
fn a_completion_settles_whatever_else_happened() {
    assert_eq!(step(Observation::Completed, true, true, true, None), TurnStep::Settle);
}

#[test]
fn an_ended_observation_answers_stop_then_rotation_then_runner_end() {
    assert_eq!(step(Observation::Ended, true, true, true, Some(4)), TurnStep::OwnerStop { known_end: Some(4) });
    assert_eq!(step(Observation::Ended, true, false, false, None), TurnStep::OwnerStop { known_end: None });
    assert_eq!(step(Observation::Ended, false, true, true, Some(4)), TurnStep::Rotate { complete: 4 });
    assert_eq!(step(Observation::Ended, false, true, true, None), TurnStep::ObserveAgain);
    assert_eq!(
        step(Observation::Ended, false, false, true, Some(7)),
        TurnStep::RepairEnded(Resume {
            complete: 7,
            session: "thread-seen".to_string(),
            cause: "Your Agent stopped without delivering".to_string(),
        })
    );
    assert_eq!(step(Observation::Ended, false, false, true, None), TurnStep::ObserveAgain);
    assert_eq!(step(Observation::Ended, false, false, false, Some(7)), TurnStep::Reattach);
}

#[test]
fn an_ended_runner_resumes_the_work_session_when_none_was_observed() {
    let r = next_turn_step(Observation::Ended, true, false, false, true, Some(3), None, "thread-run", "");
    assert_eq!(
        r,
        TurnStep::RepairEnded(Resume {
            complete: 3,
            session: "thread-run".to_string(),
            cause: "Your Agent stopped without delivering".to_string(),
        })
    );
}

#[test]
fn a_failed_read_repairs_only_a_runner_that_is_gone() {
    assert_eq!(
        step(Observation::Failed { terminal: true }, false, false, false, Some(12)),
        TurnStep::RepairFailed(Resume {
            complete: 12,
            session: "thread-seen".to_string(),
            cause: "journal broke".to_string(),
        })
    );
    assert_eq!(step(Observation::Failed { terminal: true }, false, false, false, None), TurnStep::ObserveAgain);
    assert_eq!(step(Observation::Failed { terminal: false }, true, false, false, Some(2)), TurnStep::RetryReattach);
}

#[test]
fn a_recorded_stop_closes_the_turn_as_stopped() {
    assert_eq!(next_stop_step(false, Some(5)), StopStep::Retry);
    assert_eq!(next_stop_step(true, Some(5)), StopStep::Close { boundary: Boundary::Stopped, complete: Some(5) });
    assert_eq!(next_stop_step(true, None), StopStep::Close { boundary: Boundary::Stopped, complete: None });
}

#[test]
fn boundaries_carry_their_names() {
    assert_eq!(Boundary::Delivered.name(), "delivered");
    assert_eq!(Boundary::Steered.name(), "steered");
    assert_eq!(Boundary::Stopped.name(), "stopped");
}

#[test]
fn a_stop_outranks_a_follow_up_which_outranks_delivery() {
    assert_eq!(next_settle_step(true, &Ok(true), 8), SettleStep::OwnerStop);
    assert_eq!(next_settle_step(false, &Ok(true), 8), SettleStep::Steer { boundary: Boundary::Steered, complete: 8 });
    assert_eq!(next_settle_step(false, &Ok(false), 8), SettleStep::Deliver);
    assert_eq!(next_settle_step(false, &Err("disk".to_string()), 8), SettleStep::Retry);
}

#[test]
fn an_ended_turn_rotates_only_while_running_and_never_delivers() {
    assert_eq!(next_rotate_step(false, true, &Ok(true), 6), RotateStep::Close { complete: 6 });
    assert_eq!(next_rotate_step(true, true, &Ok(true), 6), RotateStep::OwnerStop);
    assert_eq!(next_rotate_step(true, false, &Ok(true), 6), RotateStep::Steer { boundary: Boundary::Steered, complete: 6 });
    assert_eq!(next_rotate_step(true, false, &Ok(false), 6), RotateStep::Retry);
    assert_eq!(next_rotate_step(true, false, &Err("disk".to_string()), 6), RotateStep::Retry);
}

#[test]
fn a_delivery_attempt_ends_as_the_completion_said() {
    assert_eq!(next_delivery_step(true, Ok(()), 11, "thread-1"), DeliveryStep::OwnerStop);
    assert_eq!(
        next_delivery_step(false, Ok(()), 11, "thread-1"),
        DeliveryStep::Delivered { boundary: Boundary::Delivered, complete: 11 }
    );
    assert_eq!(
        next_delivery_step(false, Err(CompletionError::Retry("busy".to_string())), 11, "thread-1"),
        DeliveryStep::Retry
    );
    assert_eq!(
        next_delivery_step(false, Err(CompletionError::Repair("bad receipt".to_string())), 11, "thread-1"),
        DeliveryStep::Repair(Resume {
            complete: 11,
            session: "thread-1".to_string(),
            cause: "bad receipt".to_string(),
        })
    );
}

#[test]
fn a_dead_turn_completes_its_runner_then_repairs_only_a_named_session() {
    assert_eq!(next_repair_step(false, true, true, "thread-1"), RepairStep::CompleteRunner);
    assert_eq!(next_repair_step(true, false, true, "thread-1"), RepairStep::End);
    assert_eq!(next_repair_step(true, true, true, "thread-1"), RepairStep::OwnerStop);
    assert_eq!(next_repair_step(true, true, false, ""), RepairStep::Attention);
    assert_eq!(next_repair_step(true, true, false, "thread-1"), RepairStep::Repair);
}

#[test]
fn a_follow_up_is_armed_after_its_freeze_is_cleared() {
    assert!(next_arm_step(false, false, false) == ArmStep::End);
    assert!(next_arm_step(true, true, false) == ArmStep::OwnerStop);
    assert!(next_arm_step(true, false, false) == ArmStep::Clear);
    assert!(next_arm_step(true, false, true) == ArmStep::Arm);
}

#[test]
fn reattaching_gives_up_only_when_the_turn_or_work_ended() {
    assert!(next_reattach_step(true, true, Reach::Found, false) == ReattachStep::GiveUp);
    assert!(next_reattach_step(false, false, Reach::Found, false) == ReattachStep::GiveUp);
    assert!(next_reattach_step(false, true, Reach::Found, true) == ReattachStep::Attached);
    assert!(next_reattach_step(false, true, Reach::Gone, true) == ReattachStep::OwnerStop);
    assert!(next_reattach_step(false, true, Reach::Gone, false) == ReattachStep::Retry);
    assert!(next_reattach_step(false, true, Reach::Failed, true) == ReattachStep::Retry);
}

#[test]
fn a_turn_launches_only_without_a_stop() {
    assert!(next_launch_step(true, false) == LaunchStep::End);
    assert!(next_launch_step(false, true) == LaunchStep::OwnerStop);
    assert!(next_launch_step(false, false) == LaunchStep::Launch);
}

#[test]
fn a_rotation_is_over_only_with_a_known_end() {
    assert!(rotation_finished(true, true, false, false, true));
    assert!(rotation_finished(true, false, false, true, true));
    assert!(!rotation_finished(true, true, false, false, false));
    assert!(!rotation_finished(false, true, true, true, true));
    assert!(!rotation_finished(true, false, false, false, true));
}

#[test]
fn a_message_without_identity_is_named_by_its_digest() {
    assert_eq!(
        message_identity("abc"),
        "ba7816bf8f01cfea414140de5dae2223b00361a396177a9cb410ff61f20015ad"
    );
    assert_ne!(message_identity("Adding the jump."), message_identity("Adding the jump"));
}

#[test]
fn a_turn_names_its_end_only_when_it_leaves() {
    // Observation settles, the follow-up is not there, the first commit retries, the second delivers.
    let steps = [
        next_settle_step(false, &Ok(false), 9) == SettleStep::Deliver,
        next_delivery_step(false, Err(CompletionError::Retry("busy".to_string())), 9, "t") == DeliveryStep::Retry,
    ];
    assert!(steps.iter().all(|named_nothing| *named_nothing));
    assert_eq!(
        next_delivery_step(false, Ok(()), 9, "t"),
        DeliveryStep::Delivered { boundary: Boundary::Delivered, complete: 9 }
    );
    // A stop that is not recorded yet names nothing; once recorded it names the end stopped.
    assert_eq!(next_stop_step(false, Some(9)), StopStep::Retry);
    assert_eq!(next_stop_step(true, Some(9)), StopStep::Close { boundary: Boundary::Stopped, complete: Some(9) });
}
