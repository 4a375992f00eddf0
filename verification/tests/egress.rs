use archigoat::egress::{
    answer_needles, boundary_canary, contains, order_needles, protected_literals, redact_answer,
    content_flags, redact_machine_paths, redact_text, replace_text, secret_needles, unsafe_bytes,
    validate_egress,
};

fn env(pairs: &[(&str, &str)]) -> Vec<(String, String)> {
    pairs.iter().map(|(k, v)| (k.to_string(), v.to_string())).collect()
}

#[test]
fn contains_finds_only_nonempty_needles() {
    assert!(contains(b"hello world", b"o w"));
    assert!(contains(b"abc", b"abc"));
    assert!(!contains(b"abc", b"abcd"));
    assert!(!contains(b"abc", b""));
    assert!(!contains(b"", b"a"));
}

#[test]
fn unsafe_bytes_reports_any_needle() {
    let needles = vec!["SECRETVALUE1".to_string(), "other-token".to_string()];
    assert!(unsafe_bytes(b"x other-token y", &needles));
    assert!(!unsafe_bytes(b"nothing private here", &needles));
}

#[test]
fn replace_text_replaces_left_to_right_without_overlap() {
    assert_eq!(replace_text("aaaa", "aa", "b"), "bb");
    assert_eq!(replace_text("it's", "'", "''"), "it''s");
    assert_eq!(replace_text("abc", "", "x"), "abc");
}

#[test]
fn machine_paths_are_redacted_up_to_their_end() {
    assert_eq!(redact_machine_paths("see /Users/alice/project/x.js now"), "see [redacted] now");
    assert_eq!(redact_machine_paths("(/home/bob/a)"), "([redacted])");
    assert_eq!(
        redact_machine_paths("tmp /private/var/folders/ab/cd, done"),
        "tmp [redacted], done"
    );
    assert_eq!(redact_machine_paths("C:\\Users\\Carol\\file.txt"), "[redacted]");
    assert_eq!(redact_machine_paths("c:/users/dave/x y"), "[redacted] y");
    assert_eq!(redact_machine_paths("/usr/bin/env stays"), "/usr/bin/env stays");
}

#[test]
fn needles_order_longest_first_without_repeats() {
    let mut needles = vec![
        "bbbb".to_string(),
        "aaaaaa".to_string(),
        "bbbb".to_string(),
        "abcd".to_string(),
    ];
    order_needles(&mut needles);
    assert_eq!(needles, vec!["aaaaaa".to_string(), "abcd".to_string(), "bbbb".to_string()]);
}

#[test]
fn the_canary_names_the_runner() {
    assert_eq!(boundary_canary("r1"), "ARCHIGOAT_BOUNDARY_CANARY_r1");
}

#[test]
fn protected_literals_hold_the_canary_roots_and_credentials() {
    let e = env(&[
        ("OPENAI_API_KEY", "sk-live-0123456789"),
        ("MY_TOKEN", "tok-abcdefgh"),
        ("PATH", "/usr/bin:/bin:/usr/local/bin"),
        ("HOME", "short"),
    ]);
    let literals = protected_literals("runner-1", "/tmp/session-root", "/tmp/in", "/tmp/freeze-root", &e);
    assert!(literals.contains(&"ARCHIGOAT_BOUNDARY_CANARY_runner-1".to_string()));
    assert!(literals.contains(&"/tmp/session-root".to_string()));
    assert!(literals.contains(&"/tmp/freeze-root".to_string()));
    assert!(literals.contains(&"sk-live-0123456789".to_string()));
    assert!(literals.contains(&"tok-abcdefgh".to_string()));
    // Too short to be a literal worth matching.
    assert!(!literals.contains(&"/tmp/in".to_string()));
    assert!(!literals.contains(&"short".to_string()));
    // Not a credential.
    assert!(!literals.contains(&"/usr/bin:/bin:/usr/local/bin".to_string()));
    for pair in literals.windows(2) {
        assert!(pair[0].len() >= pair[1].len());
        assert_ne!(pair[0], pair[1]);
    }
    assert_eq!(secret_needles("runner-1", "/tmp/session-root", "/tmp/in", "/tmp/freeze-root", &e), literals);
}

#[test]
fn answer_needles_also_hold_the_repair_continuation() {
    let needles = answer_needles("r", "/tmp/s-root", "/tmp/i-root", "/tmp/f-root", &Vec::new());
    assert!(needles.contains(&"Continue this session from where the previous turn ended.".to_string()));
}

#[test]
fn redact_text_strikes_each_needle() {
    let needles = vec!["supersecret".to_string(), "secret".to_string()];
    assert_eq!(redact_text("a supersecret and a secret", &needles), "a [redacted] and a [redacted]");
    assert_eq!(redact_text("nothing", &needles), "nothing");
}

#[test]
fn answers_lose_paths_and_literals() {
    let e = env(&[("ANTHROPIC_API_KEY", "sk-ant-0123456789")]);
    let r = redact_answer(
        "runner-7",
        "/tmp/session-7",
        "/tmp/input-7",
        "/tmp/freeze-7",
        "key sk-ant-0123456789 at /Users/me/x and ARCHIGOAT_BOUNDARY_CANARY_runner-7",
        &e,
    );
    assert_eq!(r, "key [redacted] at [redacted] and [redacted]");
}

#[test]
fn egress_redacts_the_answer_and_passes_clean_artifacts() {
    let mut answer = Some("built at /home/me/game".to_string());
    let names = vec!["index.html".to_string()];
    let r = validate_egress("r", "/tmp/sess-x", "/tmp/inpt-x", "/tmp/frz-x", &mut answer, &names, &vec![false], &Vec::new());
    assert!(r.is_ok());
    assert_eq!(answer, Some("built at [redacted]".to_string()));
}

#[test]
fn egress_refuses_an_unsafe_artifact() {
    let mut answer = None;
    let names = vec!["index.html".to_string(), "app.js".to_string()];
    let r = validate_egress("r", "/tmp/sess-x", "/tmp/inpt-x", "/tmp/frz-x", &mut answer, &names, &vec![false, true], &Vec::new());
    assert_eq!(
        r.unwrap_err(),
        "Delivery crossed the Work boundary; replace the final answer and every artifact with only the intended user result"
    );
    assert_eq!(answer, None);
}

#[test]
fn egress_refuses_an_artifact_named_by_a_secret() {
    let mut answer = None;
    let names = vec!["ARCHIGOAT_BOUNDARY_CANARY_r.txt".to_string()];
    let r = validate_egress("r", "/tmp/sess-x", "/tmp/inpt-x", "/tmp/frz-x", &mut answer, &names, &vec![false], &Vec::new());
    assert!(r.is_err());
}

#[test]
fn artifact_bytes_are_judged_against_the_work_secrets() {
    let reads: Vec<Result<Vec<u8>, String>> = vec![
        Ok(b"<html>safe</html>".to_vec()),
        Ok(b"token ARCHIGOAT_BOUNDARY_CANARY_r leaked".to_vec()),
        Err("unreadable".to_string()),
        Ok(b"see /tmp/sess-x/notes".to_vec()),
        Ok(Vec::new()),
    ];
    let flags = content_flags("r", "/tmp/sess-x", "/tmp/inpt-x", "/tmp/frz-x", &reads, &Vec::new());
    assert_eq!(flags, vec![false, true, true, true, false]);
}

#[test]
fn an_environment_secret_in_artifact_bytes_is_unsafe() {
    let reads: Vec<Result<Vec<u8>, String>> = vec![Ok(b"key=sk-live-123456789".to_vec())];
    let secrets = env(&[("OPENAI_API_KEY", "sk-live-123456789")]);
    assert_eq!(content_flags("r", "/tmp/s", "/tmp/i", "/tmp/f", &reads, &secrets), vec![true]);
    assert_eq!(content_flags("r", "/tmp/s", "/tmp/i", "/tmp/f", &reads, &Vec::new()), vec![false]);
}
