use archigoat::work_state::drive::{backoff, error_retry_for, relaunch_plan_for, repairs_session_for, MAX_COOLDOWN_MS, MAX_RETRY_MS, RETRY_MS};
use archigoat::work_state::outcome::{stop_retry, STOP_COMMIT_INITIAL_MS, STOP_COMMIT_MAX_MS};

#[test]
fn backoff_doubles_up_to_its_cap() {
    assert_eq!(backoff(250), 500);
    assert_eq!(backoff(14999), 29998);
    assert_eq!(backoff(15000), MAX_RETRY_MS);
    assert_eq!(backoff(MAX_RETRY_MS), MAX_RETRY_MS);
    assert_eq!(backoff(u64::MAX), MAX_RETRY_MS);
}

/// The pauses of consecutive replacements of runners that keep dying, starting cold.
fn replacement_quiet(generations: usize) -> Vec<u64> {
    let mut cooldown = None;
    let mut quiet = Vec::new();
    for _ in 1..generations {
        let (pause, next) = relaunch_plan_for(false, Some("same brief"), Some("same brief"), cooldown);
        quiet.push(pause.unwrap_or(0));
        cooldown = next;
    }
    quiet
}

#[test]
fn a_dead_runners_replacement_starts_now() {
    assert_eq!(replacement_quiet(8).first().copied(), Some(0));
}

#[test]
fn a_replacement_never_waits_past_the_anti_hot_loop_cap() {
    let quiet = replacement_quiet(8);
    assert_eq!(quiet, vec![0, 250, 500, 1000, 2000, 2000, 2000]);
    assert!(quiet.iter().sum::<u64>() < 10_000);
    assert!(quiet.iter().all(|pause| *pause <= MAX_COOLDOWN_MS));
}

#[test]
fn a_new_follow_up_or_a_rotation_starts_the_schedule_over() {
    assert_eq!(relaunch_plan_for(false, Some("a"), Some("b"), Some(2000)), (None, None));
    assert_eq!(relaunch_plan_for(true, None, None, Some(2000)), (None, None));
    assert_eq!(relaunch_plan_for(false, None, None, None), (None, Some(RETRY_MS)));
    assert_eq!(relaunch_plan_for(false, None, Some("b"), Some(500)), (None, None));
}

#[test]
fn a_journal_that_advanced_starts_its_retry_over() {
    assert_eq!(error_retry_for(10, 5, 8000), (RETRY_MS, 10));
    assert_eq!(error_retry_for(5, 5, 8000), (16000, 5));
    assert_eq!(error_retry_for(3, 5, 20000), (MAX_RETRY_MS, 5));
}

#[test]
fn only_a_bound_session_is_repaired() {
    assert!(repairs_session_for("thread-1"));
    assert!(!repairs_session_for(""));
}

#[test]
fn stop_commits_retry_at_most_a_second_apart() {
    let mut pause = STOP_COMMIT_INITIAL_MS;
    let mut seen = Vec::new();
    for _ in 0..8 {
        seen.push(pause);
        pause = stop_retry(pause);
    }
    assert_eq!(seen, vec![25, 50, 100, 200, 400, 800, 1000, 1000]);
    assert_eq!(stop_retry(u64::MAX), STOP_COMMIT_MAX_MS);
}
