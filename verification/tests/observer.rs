use archigoat::observer::{acknowledge, forward_stop, frame_read, fresh_watch, when_quiet, Quiet};

#[test]
fn the_owners_stop_is_forwarded_once() {
    let w = fresh_watch();
    let (due, w) = forward_stop(w, false);
    assert!(!due);
    let (due, w) = forward_stop(w, true);
    assert!(due);
    let (due, _) = forward_stop(w, true);
    assert!(!due);
}

#[test]
fn a_journal_that_lost_frames_keeps_observing() {
    let w = fresh_watch();
    let (w, lost) = frame_read(w, 1, false, 30);
    assert_eq!(lost, 0);
    let (w, lost) = frame_read(w, 4, false, 60);
    assert_eq!(lost, 2);
    assert_eq!(w.cursor, 4);
    assert_eq!(w.offset, 60);
    assert_eq!(w.terminal, None);
    let (w, _) = frame_read(w, 5, true, 77);
    assert_eq!(w.terminal, Some(5));
    assert!(acknowledge(w, 5).is_ok());
    assert_eq!(acknowledge(w, 4).unwrap_err(), "Windows Work acknowledgement is invalid");
}

#[test]
fn a_runner_that_is_gone_settles_the_turn_it_left() {
    let (w, _) = frame_read(fresh_watch(), 3, false, 40);
    let (step, w) = when_quiet(w, false);
    assert!(step == Quiet::Wait);
    let (step, w) = when_quiet(w, true);
    assert!(step == Quiet::WriteEnd(4));
    let (step, w) = when_quiet(w, true);
    assert!(step == Quiet::Settle(4));
    assert_eq!(w.terminal, Some(4));
    assert!(acknowledge(w, 4).is_ok());
    let (step, _) = when_quiet(w, true);
    assert!(step == Quiet::Wait);
}
