use archigoat::json::Json;
use archigoat::provider::Provider;
use archigoat::runtime::{launch_plan, remap_attachment_paths, without_instructions, without_native_instructions};

const CONTINUE: &str = "Continue this session from where the previous turn ended.";

#[test]
fn native_instructions_leave_the_envelope() {
    let stored = r#"{"request":"Draw a goat","instructions":"be brief","authority":["request","instructions","attachments"]}"#;
    assert_eq!(
        without_native_instructions(stored).unwrap(),
        r#"{"authority":["request","attachments"],"request":"Draw a goat"}"#
    );
}

#[test]
fn an_envelope_without_instructions_is_written_again_unchanged_in_meaning() {
    assert_eq!(
        without_native_instructions(r#"{"b":1,"a":[true,null]}"#).unwrap(),
        r#"{"a":[true,null],"b":1}"#
    );
    assert_eq!(
        without_native_instructions(r#"{"authority":"instructions"}"#).unwrap(),
        r#"{"authority":"instructions"}"#
    );
}

#[test]
fn an_envelope_that_is_not_an_object_is_invalid() {
    assert_eq!(without_native_instructions("[1,2]").unwrap_err(), "Stored Work input is invalid");
    assert_eq!(without_native_instructions("not json").unwrap_err(), "Stored Work input is invalid");
    assert_eq!(without_native_instructions("\"text\"").unwrap_err(), "Stored Work input is invalid");
}

#[test]
fn only_object_values_lose_instructions() {
    let fields = vec![
        ("instructions".to_string(), "\"x\"".to_string()),
        ("authority".to_string(), "[\"instructions\",\"request\"]".to_string()),
        ("request".to_string(), "\"hi\"".to_string()),
    ];
    assert_eq!(
        without_instructions(Json::Object(fields)),
        Some(Json::Object(vec![
            ("authority".to_string(), "[\"request\"]".to_string()),
            ("request".to_string(), "\"hi\"".to_string()),
        ]))
    );
    assert_eq!(without_instructions(Json::Text("instructions".to_string())), Some(Json::Text("instructions".to_string())));
}

#[test]
fn steering_and_repair_need_a_bound_session() {
    let paths = vec!["/a".to_string()];
    let steer = launch_plan(Provider::Codex, "", Some("{}"), false, true, false, "{}", paths.clone());
    assert_eq!(steer.err().unwrap(), "Steering requires a bound native session");
    let repair = launch_plan(Provider::Codex, "", None, false, true, false, "{}", paths);
    assert_eq!(repair.err().unwrap(), "Repair requires a bound native session");
}

#[test]
fn a_first_launch_strips_instructions_and_keeps_each_path_once() {
    let paths = vec!["/a".to_string(), "/b".to_string(), "/a".to_string(), "/c".to_string(), "/b".to_string()];
    let plan = launch_plan(
        Provider::Claude,
        "",
        None,
        false,
        false,
        true,
        r#"{"instructions":"x","request":"go"}"#,
        paths,
    )
    .unwrap();
    assert_eq!(plan.envelope, r#"{"request":"go"}"#);
    assert!(plan.resume);
    assert!(plan.request);
    assert_eq!(plan.paths, vec!["/a".to_string(), "/b".to_string(), "/c".to_string()]);
}

#[test]
fn cursor_keeps_its_envelope_untouched() {
    let stored = r#"{"instructions":"x","request":"go"}"#;
    let plan = launch_plan(Provider::Cursor, "thread", None, false, false, false, stored, Vec::new()).unwrap();
    assert_eq!(plan.envelope, stored);
    assert!(!plan.resume);
}

#[test]
fn a_repair_continues_with_the_continuation_text() {
    let plan = launch_plan(Provider::Codex, "thread", None, false, true, false, "{}", Vec::new()).unwrap();
    assert_eq!(plan.envelope, CONTINUE);
    assert!(plan.resume);
    assert!(!plan.request);
}

#[test]
fn a_stored_request_that_is_not_json_is_refused() {
    let plan = launch_plan(Provider::Codex, "thread", None, false, false, false, "plain text", Vec::new());
    assert_eq!(plan.err().unwrap(), "Stored Work input is invalid");
}

#[test]
fn an_undelivered_steer_is_sent_as_the_request() {
    let plan = launch_plan(
        Provider::Codex,
        "thread",
        Some(r#"{"steer":{"text":"more"},"resume":true}"#),
        false,
        false,
        false,
        "{}",
        Vec::new(),
    )
    .unwrap();
    assert_eq!(plan.envelope, r#"{"resume":true,"steer":{"text":"more"}}"#);
    assert!(plan.resume);
    assert!(plan.request);
}

fn view(pairs: &[(&str, &str)]) -> Vec<(String, String)> {
    pairs.iter().map(|(a, b)| (a.to_string(), b.to_string())).collect()
}

#[test]
fn cursor_reads_its_attachments_from_the_view() {
    let stored = r#"{"attachments":[{"name":"a","path":"/in/a.png"},{"name":"b","path":"/in/b.txt"}],"request":"see /in/a.png"}"#;
    let copies = view(&[("/in/b.txt", "/view/2"), ("/in/a.png", "/view/1")]);
    assert_eq!(
        remap_attachment_paths(stored, &copies).unwrap(),
        r#"{"attachments":[{"name":"a","path":"/view/1"},{"name":"b","path":"/view/2"}],"request":"see /in/a.png"}"#
    );
}

#[test]
fn an_envelope_without_attachments_is_not_touched() {
    let stored = r#"{ "request": "draw" }"#;
    assert_eq!(remap_attachment_paths(stored, &Vec::new()).unwrap(), stored);
    assert_eq!(remap_attachment_paths("[1]", &Vec::new()).unwrap(), "[1]");
    assert_eq!(remap_attachment_paths("nope", &Vec::new()).unwrap_err(), "Stored Work input is invalid");
}

#[test]
fn a_remap_refuses_what_it_cannot_move() {
    let copies = view(&[("/in/a.png", "/view/1")]);
    assert_eq!(
        remap_attachment_paths(r#"{"attachments":[{"path":7}]}"#, &copies).unwrap_err(),
        "Stored Work attachment path is invalid"
    );
    assert_eq!(
        remap_attachment_paths(r#"{"attachments":[{"path":"/in/other"}]}"#, &copies).unwrap_err(),
        "Cursor input view path is invalid"
    );
    assert_eq!(
        remap_attachment_paths(r#"{"attachments":[{"path": "/in/a.png"}]}"#, &copies).unwrap_err(),
        "Stored Work attachment path changed"
    );
}
