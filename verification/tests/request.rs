use archigoat::provider::Provider;
use archigoat::request::{Provenance, WorkContext, WorkRequest};
use archigoat::runtime::{admit_request, initial_native_session, native_session};

fn guidance(text: &str) -> WorkContext {
    WorkContext {
        author: "TrianGoat Designer".to_string(),
        source: "guidance".to_string(),
        provenance: Provenance::Agent,
        text: text.to_string(),
        attachments: Vec::new(),
    }
}

fn note(text: &str) -> WorkContext {
    WorkContext {
        author: "creator".to_string(),
        source: "chat".to_string(),
        provenance: Provenance::User,
        text: text.to_string(),
        attachments: Vec::new(),
    }
}

#[test]
fn admission_lifts_the_one_designer_instruction() {
    let mut request = WorkRequest {
        conversation: String::new(),
        goal: "Build a runner game".to_string(),
        context: vec![note("make it blue"), guidance("Keep it to one screen.")],
    };
    let (conversation, instructions) = admit_request("work-1", &mut request).unwrap();
    assert_eq!(conversation, "work-1");
    assert_eq!(instructions, Some("Keep it to one screen.".to_string()));
    assert_eq!(request.context.len(), 1);
    assert_eq!(request.context[0].text, "make it blue");
}

#[test]
fn admission_refuses_bad_identities_and_repeated_guidance() {
    let mut request = WorkRequest { conversation: "conv-9".to_string(), goal: "g".to_string(), context: Vec::new() };
    assert_eq!(admit_request(" ", &mut request).unwrap_err(), "Work identity is invalid");
    assert_eq!(admit_request("w", &mut request).unwrap().0, "conv-9");
    let mut bad = WorkRequest { conversation: "a\nb".to_string(), goal: "g".to_string(), context: Vec::new() };
    assert_eq!(admit_request("w", &mut bad).unwrap_err(), "Conversation identity is invalid");
    let mut twice = WorkRequest {
        conversation: String::new(),
        goal: "g".to_string(),
        context: vec![guidance("a"), guidance("b")],
    };
    assert_eq!(admit_request("w", &mut twice).unwrap_err(), "Work contains multiple Designer guidance entries");
    assert_eq!(twice.context.len(), 2);
}

#[test]
fn a_fresh_work_names_its_session_only_where_the_provider_accepts_one() {
    let identity = "0123456789abcdef0123456789abcdefXYZ";
    assert_eq!(native_session(identity), "01234567-89ab-cdef-0123-456789abcdef");
    assert_eq!(initial_native_session(Provider::Claude, None, identity), "01234567-89ab-cdef-0123-456789abcdef");
    assert_eq!(initial_native_session(Provider::Codex, None, identity), "");
    assert_eq!(initial_native_session(Provider::Cursor, Some("thread-1".to_string()), identity), "thread-1");
}

#[test]
fn a_session_hint_is_cut_by_bytes() {
    // "é" takes two bytes, so the first eight bytes hold seven characters.
    let identity = "abécdef0123456789abcdef01234567XYZ";
    assert_eq!(native_session(identity), "abécdef-0123-4567-89ab-cdef01234567");
}
