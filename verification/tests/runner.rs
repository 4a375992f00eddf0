use base64::Engine;
use archigoat::journal::{DONE, STDERR, STDOUT, STOPPED};
use archigoat::runner::{
    DiagnosticOutput, DIAGNOSTIC_BYTES, JournalCursor, RunnerOutput, finish_facts, finish_frames, input_diagnostic, record_output,
    cleanup_error, encoded_command, join_errors, joined, quote, runner_script, utf16le_bytes, LineSplitter,
    MAX_PROVIDER_RECORD_BYTES,
};

#[test]
fn cleanup_failures_are_reported_beside_the_cause() {
    assert_eq!(cleanup_error("runner died".to_string(), Ok(())), "runner died");
    assert_eq!(
        cleanup_error("runner died".to_string(), Err("tree busy".to_string())),
        "runner died; cleanup failed: tree busy"
    );
}

#[test]
fn every_cleanup_failure_is_joined() {
    assert!(joined(&Vec::new()).is_ok());
    assert_eq!(joined(&vec!["a".to_string()]).unwrap_err(), "a");
    assert_eq!(joined(&vec!["a".to_string(), "b".to_string(), "c".to_string()]).unwrap_err(), "a; b; c");
}

#[test]
fn lines_split_at_newlines_across_chunks() {
    let mut s = LineSplitter::new();
    assert!(s.feed(b"{\"a\":").is_empty());
    let lines = s.feed(b"1}\n{\"b\":2}\npartial");
    assert_eq!(lines, vec![b"{\"a\":1}\n".to_vec(), b"{\"b\":2}\n".to_vec()]);
    assert_eq!(s.finish(), Some(b"partial".to_vec()));
    let lines = s.feed(b" end\n");
    assert_eq!(lines, vec![b"partial end\n".to_vec()]);
    assert_eq!(s.finish(), None);
}

#[test]
fn a_record_too_large_to_hold_costs_only_that_record() {
    let mut s = LineSplitter::new();
    let big = vec![b'x'; MAX_PROVIDER_RECORD_BYTES + 1];
    assert!(s.feed(&big).is_empty());
    assert_eq!(s.finish(), None);
    let lines = s.feed(b"tail of the big record\n{\"type\":\"turn.completed\"}\n");
    assert_eq!(lines, vec![b"{\"type\":\"turn.completed\"}\n".to_vec()]);
}

#[test]
fn quotes_are_doubled() {
    assert_eq!(quote("C:\\O'Neil\\app.exe"), "C:\\O''Neil\\app.exe");
}

#[test]
fn the_runner_script_names_its_job() {
    assert_eq!(
        runner_script("C:\\a b\\goat.exe", "C:\\jobs\\it's.json"),
        "$ErrorActionPreference='Stop';& 'C:\\a b\\goat.exe' '--windows-work' 'C:\\jobs\\it''s.json';exit $LASTEXITCODE"
    );
}

#[test]
fn utf16_little_endian_units() {
    assert_eq!(utf16le_bytes("A"), vec![0x41, 0x00]);
    assert_eq!(utf16le_bytes("é"), vec![0xe9, 0x00]);
    assert_eq!(utf16le_bytes("😀"), vec![0x3d, 0xd8, 0x00, 0xde]);
}

#[test]
fn the_encoded_command_is_base64_of_utf16() {
    let encoded = encoded_command("g.exe", "j");
    let script = runner_script("g.exe", "j");
    let mut expected = Vec::new();
    for unit in script.encode_utf16() {
        expected.extend_from_slice(&unit.to_le_bytes());
    }
    assert_eq!(encoded, base64::engine::general_purpose::STANDARD.encode(expected));
    assert_eq!(encoded_command("", "").len() % 4, 0);
}

#[test]
fn diagnostic_output_keeps_its_first_bytes_and_says_it_cut() {
    let mut small = DiagnosticOutput::new();
    small.absorb(b"hello ");
    small.absorb(b"world");
    assert_eq!(small.finish(), b"hello world".to_vec());

    let mut big = DiagnosticOutput::new();
    big.absorb(&vec![b'a'; DIAGNOSTIC_BYTES - 2]);
    big.absorb(b"bcdef");
    big.absorb(b"ignored");
    let out = big.finish();
    let note = b"\n[ArchiGoat: diagnostic output truncated]\n";
    assert_eq!(out.len(), DIAGNOSTIC_BYTES + note.len());
    assert_eq!(&out[DIAGNOSTIC_BYTES - 2..DIAGNOSTIC_BYTES], b"bc");
    assert_eq!(&out[DIAGNOSTIC_BYTES..], note);
}

#[test]
fn a_launch_failure_carries_its_cleanup_failure() {
    assert_eq!(join_errors("launch failed".to_string(), Ok(())), "launch failed");
    assert_eq!(
        join_errors("launch failed".to_string(), Err("job busy".to_string())),
        "launch failed; job busy"
    );
}

#[test]
fn output_events_advance_the_journal_cursor() {
    let at = JournalCursor { sequence: 4, outputs: 2 };
    let r = record_output(RunnerOutput::Bytes(STDOUT, b"line\n".to_vec()), at);
    assert_eq!(r.frame, Some((4, STDOUT, b"line\n".to_vec())));
    assert!(r.next == JournalCursor { sequence: 5, outputs: 2 });
    assert_eq!(r.carried, Some(STDOUT));
    let r = record_output(RunnerOutput::Closed(Ok(())), at);
    assert_eq!(r.frame, None);
    assert!(r.next == JournalCursor { sequence: 4, outputs: 1 });
    let r = record_output(RunnerOutput::Closed(Err("pipe broke".to_string())), at);
    assert_eq!(r.frame, Some((4, STDERR, b"pipe broke".to_vec())));
    assert!(r.next == JournalCursor { sequence: 5, outputs: 1 });
    assert_eq!(r.carried, None);
    let r = record_output(RunnerOutput::Gone, at);
    assert!(r.next == JournalCursor { sequence: 4, outputs: 0 });
    assert_eq!(input_diagnostic(false, false), Some("Local Agent stopped reading its input"));
    assert_eq!(input_diagnostic(true, false), None);
    assert_eq!(input_diagnostic(false, true), None);
    assert_eq!(finish_facts(false, true, false), (true, DONE));
    assert_eq!(finish_facts(false, false, true), (true, DONE));
    assert_eq!(finish_facts(false, false, false), (false, DONE));
    assert_eq!(finish_facts(true, true, true), (false, STOPPED));
}

#[test]
fn a_failed_freeze_is_journaled_before_done() {
    let frames = finish_frames(false, true, false, Err("freeze failed".to_string()), 7);
    assert_eq!(
        frames,
        vec![(7, STDERR, b"freeze failed".to_vec()), (8, DONE, Vec::new())]
    );
}

#[test]
fn a_clean_or_undue_freeze_journals_only_the_terminal_frame() {
    assert_eq!(finish_frames(false, true, false, Ok(()), 3), vec![(3, DONE, Vec::new())]);
    assert_eq!(finish_frames(false, false, true, Ok(()), 3), vec![(3, DONE, Vec::new())]);
    // Nothing was frozen for a failed, uncompleted turn, so a stale freeze error is not read.
    assert_eq!(
        finish_frames(false, false, false, Err("ignored".to_string()), 3),
        vec![(3, DONE, Vec::new())]
    );
}

#[test]
fn a_stopped_runner_ends_stopped_and_never_reports_a_freeze() {
    assert_eq!(
        finish_frames(true, true, true, Err("ignored".to_string()), 0),
        vec![(0, STOPPED, Vec::new())]
    );
}
