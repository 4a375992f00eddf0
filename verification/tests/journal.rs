use archigoat::journal::{encode_frame, read_frame, AgentEvent, DONE, HEADER, LEGACY_STOPPED, STDERR, STDOUT, STOPPED};

fn frame(sequence: u64, kind: u8, bytes: &[u8]) -> Vec<u8> {
    encode_frame(sequence, kind, bytes)
}

#[test]
fn a_frame_has_a_header_then_its_payload() {
    let bytes = frame(0x0102, STDOUT, b"hi");
    assert_eq!(bytes.len(), HEADER + 2);
    assert_eq!(&bytes[0..8], &[0x02, 0x01, 0, 0, 0, 0, 0, 0]);
    assert_eq!(bytes[8], STDOUT);
    assert_eq!(&bytes[9..17], &[2, 0, 0, 0, 0, 0, 0, 0]);
    assert_eq!(&bytes[17..], b"hi");
}

#[test]
fn an_encoded_frame_reads_back() {
    let bytes = frame(7, STDOUT, b"{\"type\":\"turn.completed\"}\n");
    let (read, end) = read_frame(&bytes, 0).expect("a whole frame reads");
    assert_eq!(read.sequence, 7);
    assert_eq!(end, bytes.len());
    match read.event {
        AgentEvent::Stdout(payload) => assert_eq!(payload, b"{\"type\":\"turn.completed\"}\n".to_vec()),
        _ => panic!("stdout frame read as another event"),
    }
}

#[test]
fn frames_read_in_order() {
    let mut journal = frame(1, STDOUT, b"a\n");
    journal.extend(frame(2, STDERR, b"secret diagnostic"));
    journal.extend(frame(3, DONE, b""));
    let (first, at) = read_frame(&journal, 0).unwrap();
    assert_eq!(first.sequence, 1);
    let (second, at) = read_frame(&journal, at).unwrap();
    assert_eq!(second.sequence, 2);
    assert!(matches!(second.event, AgentEvent::Stderr));
    let (third, at) = read_frame(&journal, at).unwrap();
    assert_eq!(third.sequence, 3);
    assert!(matches!(third.event, AgentEvent::Done));
    assert_eq!(at, journal.len());
    assert!(read_frame(&journal, at).is_none());
}

/// Kind names one durable frame in the words the observer reads it by.
fn kind(event: &AgentEvent) -> &'static str {
    match event {
        AgentEvent::Stdout(_) => "output",
        AgentEvent::Stderr => "diagnostic",
        AgentEvent::Stalled => "quiet",
        AgentEvent::Done => "done",
        AgentEvent::Stopped => "stopped",
    }
}

#[test]
fn a_frame_this_build_cannot_name_is_read_past() {
    let mut journal = frame(1, STDOUT, b"{\"type\":\"thread.started\"}\n");
    journal.extend(frame(2, 9, b"something this build never wrote"));
    journal.extend(frame(3, DONE, &[]));

    let mut kinds = Vec::new();
    let mut offset = 0;
    while let Some((read, next)) = read_frame(&journal, offset) {
        kinds.push(kind(&read.event));
        offset = next;
    }
    assert_eq!(kinds, ["output", "done"], "an unreadable frame took the frames behind it with it");

    // The previous generation of this runner numbered a Work that did not complete as five.
    let stopped = frame(1, 5, &[]);
    let (read, _) = read_frame(&stopped, 0).expect("a legacy terminal fact was released");
    assert_eq!(kind(&read.event), "stopped", "a Work an earlier runner stopped can no longer be settled");
}

#[test]
fn a_legacy_terminal_fact_reads_as_stopped() {
    let journal = frame(4, LEGACY_STOPPED, b"");
    let (read, _) = read_frame(&journal, 0).unwrap();
    assert!(matches!(read.event, AgentEvent::Stopped));
}

#[test]
fn a_stop_with_a_payload_reports_a_stalled_command() {
    let journal = frame(5, STOPPED, b"quiet");
    let (read, _) = read_frame(&journal, 0).unwrap();
    assert!(matches!(read.event, AgentEvent::Stalled));
    let journal = frame(6, STOPPED, b"");
    let (read, _) = read_frame(&journal, 0).unwrap();
    assert!(matches!(read.event, AgentEvent::Stopped));
}

#[test]
fn a_done_with_a_payload_is_not_named() {
    let journal = frame(5, DONE, b"x");
    assert!(read_frame(&journal, 0).is_none());
}

#[test]
fn a_partial_frame_is_not_read() {
    let journal = frame(9, STDOUT, b"complete line\n");
    for cut in 0..journal.len() {
        assert!(read_frame(&journal[..cut], 0).is_none(), "a frame cut at {cut} was read");
    }
    assert!(read_frame(&journal, 0).is_some());
}
