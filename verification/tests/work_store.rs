use archigoat::evidence::ResultKind;
use archigoat::provider::Provider;
use archigoat::request::WorkRequest;
use archigoat::runtime::{RuntimeSteer, RuntimeWork};
use archigoat::state::{DeliveryFile, RunPhase};
use archigoat::work_state::model::{Entry, Running};
use archigoat::work_state::outcome::{
    binds_conversation, check_session, delivered_run, steer_refusal, Admission, CompletionError, Insertion,
};
use archigoat::work_state::restore::{restore, save_entry, RestoreEvidence, SavedWork};
use archigoat::work_state::store::WorkStore;

fn runtime(work_id: &str) -> RuntimeWork {
    RuntimeWork {
        work_id: work_id.to_string(),
        provider: Provider::Codex,
        model_selection: None,
        effort_selection: None,
        session: format!("/tmp/session/{work_id}"),
        freeze_root: format!("/tmp/freeze/{work_id}"),
        native_session: String::new(),
        resume: false,
        runner_id: format!("runner-{work_id}"),
        started_at: 100,
        input_path: format!("/tmp/input/{work_id}"),
        steer: None,
        steer_delivered: false,
        rotating: false,
        repair: false,
        failure: None,
        launched: false,
    }
}

fn store_with(ids: &[&str], remote: bool) -> WorkStore {
    let mut store = WorkStore::new();
    for id in ids {
        store.insert_running(Running::from_runtime(&runtime(id), remote));
    }
    store
}

fn steer(id: &str, goal: &str) -> RuntimeSteer {
    RuntimeSteer::prepare(id.to_string(), WorkRequest::follow_up(goal.to_string()), Vec::new()).unwrap()
}

#[test]
fn a_new_work_is_running_and_listed() {
    let store = store_with(&["w2", "w1"], false);
    assert!(store.contains("w1"));
    assert!(!store.contains("w3"));
    assert_eq!(store.is_remote("w1"), Some(false));
    assert_eq!(store.is_remote("w3"), None);
    let snapshot = store.entry_snapshot("w1").unwrap();
    assert_eq!(snapshot.phase, RunPhase::Running);
    assert_eq!(snapshot.started_at, 100);
    assert_eq!(store.active_ids(), vec!["w1".to_string(), "w2".to_string()]);
    assert_eq!(store.executing_ids(), vec!["w1".to_string(), "w2".to_string()]);
    assert!(store.parked_ids().is_empty());
}

#[test]
fn a_start_meets_its_own_control_plane() {
    let mut store = store_with(&["local"], false);
    assert!(matches!(store.admit_provenance("fresh", true), Ok(Admission::Fresh)));
    assert!(matches!(store.admit_provenance("local", false), Ok(Admission::Already)));
    assert!(matches!(store.admit_provenance("local", true), Ok(Admission::Upgraded)));
    assert_eq!(store.is_remote("local"), Some(true));
    assert_eq!(
        store.admit_provenance("local", false).err().unwrap(),
        "Work identity belongs to another control plane"
    );
    assert!(store.unmark_remote("local"));
    assert_eq!(store.is_remote("local"), Some(false));
}

#[test]
fn a_finished_work_is_done_and_acknowledgeable() {
    let mut store = store_with(&["w"], true);
    assert_eq!(store.acknowledged_paths("w").unwrap_err(), "Account acknowledged a Work that is still Running");
    assert_eq!(store.settle_refused("w").unwrap_err(), "Account refused a Work that is still Running");
    let prior = store.finish("w", "Your runner game is ready.".to_string(), ResultKind::Answer, None, "thread-1".to_string(), Vec::new(), Some(200));
    assert!(prior.is_some());
    let snapshot = store.entry_snapshot("w").unwrap();
    assert_eq!(snapshot.phase, RunPhase::Done);
    assert_eq!(snapshot.text, "Your runner game is ready.");
    assert_eq!(snapshot.kind, Some(ResultKind::Answer));
    assert!(store.settle_refused("w").is_ok());
    let (session, freeze) = store.acknowledged_paths("w").unwrap().unwrap();
    assert_eq!(session, Some("/tmp/session/w".to_string()));
    assert_eq!(freeze, None);
    assert!(store.finish("w", String::new(), ResultKind::Answer, None, String::new(), Vec::new(), None).is_none());
    let entry = store.take_terminal("w").unwrap();
    assert!(!store.contains("w"));
    assert!(matches!(store.acknowledged_paths("w"), Ok(None)));
    store.restore_entry("w", entry);
    assert_eq!(store.entry_snapshot("w").unwrap().phase, RunPhase::Done);
}

#[test]
fn only_an_owner_request_stops_a_running_work_as_the_owners_stop() {
    let mut store = store_with(&["w"], false);
    assert!(store.mark_stopped("w", true, "Stopped by you".to_string(), None).is_none());
    assert_eq!(store.entry_snapshot("w").unwrap().phase, RunPhase::Running);
    assert!(store.request_stop("w"));
    assert!(store.mark_stopped("w", true, "Stopped by you".to_string(), Some(5)).is_some());
    let snapshot = store.entry_snapshot("w").unwrap();
    assert_eq!(snapshot.phase, RunPhase::Stopped);
    assert_eq!(snapshot.text, "Stopped by you");
}

#[test]
fn a_runner_end_fails_the_work_with_its_cause() {
    let mut store = store_with(&["w"], false);
    assert!(store.mark_stopped("w", false, "Your Agent stopped without delivering".to_string(), None).is_some());
    let snapshot = store.entry_snapshot("w").unwrap();
    assert_eq!(snapshot.phase, RunPhase::Failed);
    assert_eq!(snapshot.text, "Your Agent stopped without delivering");
}

#[test]
fn a_follow_up_is_queued_once_and_rolled_back_exactly() {
    let mut store = store_with(&["w"], false);
    let queued = store.queue_steer("w", steer("s1", "Add a jump"), Ok(())).unwrap();
    let (rollback, resumed) = queued.expect("a new follow-up is queued");
    assert!(!resumed);
    // The same follow-up again changes nothing.
    assert!(store.queue_steer("w", steer("s1", "Add a jump"), Ok(())).unwrap().is_none());
    store.rollback_steering("w", rollback);
    assert!(store.queue_steer("w", steer("s1", "Add a jump"), Ok(())).unwrap().is_some());
    assert_eq!(
        store.queue_steer("missing", steer("s2", "x"), Ok(())).err().unwrap(),
        "Work is not Running"
    );
    assert_eq!(
        store.queue_steer("w", steer("s3", "x"), Err("Steer input is invalid".to_string())).err().unwrap(),
        "Steer input is invalid"
    );
}

#[test]
fn a_stopping_work_takes_no_follow_up() {
    let mut store = store_with(&["w"], false);
    assert!(store.begin_stop("w").is_some());
    let refused = store.queue_steer("w", steer("s1", "more"), Ok(())).err().unwrap();
    assert_eq!(refused, "Work is stopping");
    assert_eq!(steer_refusal(refused), Ok(false));
    assert_eq!(steer_refusal("Work is not Running".to_string()), Ok(false));
    assert_eq!(steer_refusal("disk full".to_string()), Err("disk full".to_string()));
}

#[test]
fn a_completion_is_accepted_only_from_the_bound_session() {
    assert!(check_session("thread-1", "thread-1").is_ok());
    match check_session("thread-1", "thread-2") {
        Err(CompletionError::Repair(reason)) => {
            assert_eq!(reason, "Provider native session does not match this Work")
        }
        _ => panic!("a foreign session completed this Work"),
    }
}

#[test]
fn the_durable_answer_outranks_the_observed_one_unless_blank() {
    let store = store_with(&["w"], false);
    assert_eq!(store.completion_answer("w", Some("observed".to_string())), Some("observed".to_string()));
    assert_eq!(store.completion_answer("missing", None), None);
}

#[test]
fn a_forked_session_never_takes_a_held_conversation() {
    assert!(binds_conversation("thread-2", None, false));
    assert!(binds_conversation("thread-2", Some("thread-1"), false));
    assert!(!binds_conversation("thread-2", Some("thread-1"), true));
    assert!(binds_conversation("thread-1", Some("thread-1"), true));
    assert!(!binds_conversation("", None, false));
}

#[test]
fn only_a_product_with_files_has_a_run() {
    assert_eq!(delivered_run(false, Some("run-1".to_string()), "w"), None);
    assert_eq!(delivered_run(true, Some("run-1".to_string()), "w"), Some("run-1".to_string()));
    assert_eq!(delivered_run(true, None, "w"), Some("w".to_string()));
}

#[test]
fn a_saved_done_work_restores_to_the_same_truth() {
    let mut store = store_with(&["w"], true);
    store.finish("w", "Your runner game is ready.".to_string(), ResultKind::Answer, None, "thread-1".to_string(), Vec::new(), Some(200));
    let before = store.entry_snapshot("w").unwrap();
    let entry = store.take_terminal("w").unwrap();
    let saved = save_entry(&entry);
    let evidence = RestoreEvidence {
        steers_valid: Vec::new(),
        input_path: Err("not Running".to_string()),
        runner_input: Ok(()),
        bytes_verified: false,
        root_missing: false,
    };
    let (id, back) = restore(saved, evidence).unwrap();
    assert_eq!(id, "w");
    assert!(matches!(back, Entry::Done(_)));
    let mut again = WorkStore::new();
    again.restore_entry("w", back);
    let after = again.entry_snapshot("w").unwrap();
    assert_eq!(after.phase, before.phase);
    assert_eq!(after.text, before.text);
    assert_eq!(after.started_at, before.started_at);
    assert_eq!(again.is_remote("w"), Some(true));
}

#[test]
fn a_binding_carries_the_stored_conversation() {
    let store = store_with(&["w"], false);
    let binding = store.binding("w", Some(("conversation-1".to_string(), true))).unwrap();
    assert_eq!(binding.work_id, "w");
    assert_eq!(binding.conversation, "conversation-1");
    assert!(binding.resume);
    assert_eq!(binding.runner_id, "runner-w");
    assert!(binding.steer.is_none());
    assert!(store.binding("w", None).is_none());
    assert!(store.binding("missing", Some(("c".to_string(), false))).is_none());
}

#[test]
fn every_entry_is_saved_once_in_identity_order() {
    let mut store = store_with(&["b", "a", "c"], false);
    store.finish("c", "done".to_string(), ResultKind::Answer, None, "thread-c".to_string(), Vec::new(), None);
    let saved = store.saved();
    let ids: Vec<String> = saved
        .iter()
        .map(|s| match s {
            SavedWork::Running { work_id, .. } => work_id.clone(),
            SavedWork::ArtifactPending { work_id, .. } => work_id.clone(),
            SavedWork::Done { work_id, .. } => work_id.clone(),
            SavedWork::Stopped { work_id, .. } => work_id.clone(),
        })
        .collect();
    assert_eq!(ids, vec!["a".to_string(), "b".to_string(), "c".to_string()]);
    assert!(matches!(saved[2], SavedWork::Done { .. }));
    assert!(matches!(saved[0], SavedWork::Running { .. }));
}

fn artifact_done(work_id: &str) -> WorkStore {
    let mut store = store_with(&[work_id], true);
    let files = vec![DeliveryFile {
        work_id: work_id.to_string(),
        name: "index.html".to_string(),
        title: "index.html".to_string(),
    }];
    store.finish(work_id, String::new(), ResultKind::Artifact, Some("run-1".to_string()), "thread-1".to_string(), files, Some(300));
    store
}

#[test]
fn a_refused_delivery_keeps_the_product_it_finished() {
    let store = artifact_done("work-refused");
    store.settle_refused("work-refused").expect("a refusal reported an ended Work as still Running");
    let (_, freeze) = store
        .acknowledged_paths("work-refused")
        .unwrap()
        .expect("a refused delivery erased the durable entry that addresses its own product");
    assert_eq!(freeze, Some("/tmp/freeze/work-refused".to_string()));
    let snapshot = store.entry_snapshot("work-refused").unwrap();
    assert_eq!(snapshot.phase, RunPhase::Done);
    assert_eq!(snapshot.files.len(), 1);
    assert_eq!(snapshot.run, Some("run-1".to_string()));
}

#[test]
fn only_acknowledgement_removes_a_finished_product() {
    let mut store = artifact_done("work-acknowledged");
    store.settle_refused("work-acknowledged").unwrap();
    assert!(store.acknowledged_paths("work-acknowledged").unwrap().is_some());
    assert!(store.take_terminal("work-acknowledged").is_some());
    assert!(store.entry_snapshot("work-acknowledged").is_none());
    assert!(matches!(store.acknowledged_paths("work-acknowledged"), Ok(None)));
}

#[test]
fn a_refusal_never_settles_a_running_work() {
    let mut store = store_with(&["work-running"], true);
    assert!(store.settle_refused("work-running").is_err());
    assert!(store.take_terminal("work-running").is_none());
    assert_eq!(store.entry_snapshot("work-running").unwrap().phase, RunPhase::Running);
}

#[test]
fn a_saved_running_work_restores_as_its_own_owner() {
    let store = store_with(&["w"], false);
    let saved = store.saved().pop().unwrap();
    let evidence = RestoreEvidence {
        steers_valid: Vec::new(),
        input_path: Ok("/tmp/input/w".to_string()),
        runner_input: Ok(()),
        bytes_verified: false,
        root_missing: false,
    };
    let (id, entry) = restore(saved, evidence).unwrap();
    assert_eq!(id, "w");
    let mut again = WorkStore::new();
    again.restore_entry("w", entry);
    assert!(again.contains("w"));
    let before = store.binding("w", Some(("c".to_string(), false))).unwrap();
    let after = again.binding("w", Some(("c".to_string(), false))).unwrap();
    assert_eq!(before.runner_id, after.runner_id);
    assert_eq!(before.session, after.session);
    assert_eq!(before.input_path, after.input_path);
    assert_eq!(before.launched, after.launched);
    assert_eq!(again.entry_snapshot("w").unwrap().phase, RunPhase::Running);
    let refused = RestoreEvidence {
        steers_valid: Vec::new(),
        input_path: Err("Stored Work input is invalid".to_string()),
        runner_input: Ok(()),
        bytes_verified: false,
        root_missing: false,
    };
    let saved = store.saved().pop().unwrap();
    assert_eq!(restore(saved, refused).err().unwrap(), "Stored Work input is invalid");
}

#[test]
fn a_completion_delivers_only_verified_value() {
    let mut store = store_with(&["w"], false);
    store.bind_session("w", "thread-1".to_string()).unwrap();
    let binding = store.binding("w", Some(("w".to_string(), true))).unwrap();
    let none: Vec<(String, String)> = Vec::new();
    // No binding: the completion waits for durable state.
    assert!(matches!(
        store.verify_completion("w", None, "thread-1", None, Ok(Vec::new()), Ok(()), &Vec::new(), &none),
        Err(CompletionError::Retry(_))
    ));
    // Another session completed: the same Work repairs.
    match store.verify_completion("w", Some(&binding), "thread-2", None, Ok(Vec::new()), Ok(()), &Vec::new(), &none) {
        Err(CompletionError::Repair(reason)) => assert_eq!(reason, "Provider native session does not match this Work"),
        _ => panic!("a foreign session completed the Work"),
    }
    // An unreadable receipt repairs with its own cause.
    match store.verify_completion("w", Some(&binding), "thread-1", None, Err("receipt torn".to_string()), Ok(()), &Vec::new(), &none) {
        Err(CompletionError::Repair(reason)) => assert_eq!(reason, "receipt torn"),
        _ => panic!("a torn receipt delivered"),
    }
    // Nothing to deliver.
    match store.verify_completion("w", Some(&binding), "thread-1", Some("   ".to_string()), Ok(Vec::new()), Ok(()), &Vec::new(), &none) {
        Err(CompletionError::Repair(reason)) => assert_eq!(reason, "Provider completed without a reply or artifact"),
        _ => panic!("an empty completion delivered"),
    }
    // A real answer delivers, redacted.
    match store.verify_completion("w", Some(&binding), "thread-1", Some("built at /home/me/game".to_string()), Ok(Vec::new()), Ok(()), &Vec::new(), &none) {
        Ok(delivered) => {
            assert_eq!(delivered.kind(), ResultKind::Answer);
            let (answer, artifacts) = delivered.into_artifacts();
            assert_eq!(answer, "built at [redacted]");
            assert!(artifacts.is_empty());
        }
        _ => panic!("a verified answer did not deliver"),
    }
}

#[test]
fn a_prepared_work_is_published_once_per_control_plane() {
    let mut store = WorkStore::new();
    assert!(matches!(store.admit_running(Running::from_runtime(&runtime("w"), true)), Ok(Insertion::Inserted)));
    assert!(matches!(store.admit_running(Running::from_runtime(&runtime("w"), true)), Ok(Insertion::Duplicate)));
    assert_eq!(
        store.admit_running(Running::from_runtime(&runtime("w"), false)).err().unwrap(),
        "Work identity belongs to another control plane"
    );
    assert_eq!(store.active_ids(), vec!["w".to_string()]);
}

#[test]
fn one_conversation_is_held_by_one_running_work() {
    let mut store = WorkStore::new();
    let mut bound = runtime("w-bound");
    bound.native_session = "thread-7".to_string();
    store.insert_running(Running::from_runtime(&bound, false));
    store.insert_running(Running::from_runtime(&runtime("w-fresh"), false));
    let held = vec![
        ("w-fresh".to_string(), "conv-1".to_string()),
        ("w-bound".to_string(), "conv-2".to_string()),
    ];
    assert_eq!(store.live_conversation_work(Provider::Codex, "conv-1", None, &held), Some("w-fresh".to_string()));
    assert_eq!(
        store.live_conversation_work(Provider::Codex, "conv-9", Some("thread-7"), &held),
        Some("w-bound".to_string())
    );
    assert_eq!(store.live_conversation_work(Provider::Codex, "conv-9", Some(""), &held), None);
    assert_eq!(store.live_conversation_work(Provider::Claude, "conv-1", None, &held), None);
    assert_eq!(store.live_conversation_work(Provider::Codex, "conv-1", None, &Vec::new()), None);
}
