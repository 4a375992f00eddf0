use archigoat::number::{parse_u64, parse_usize};
use archigoat::receipt::{
    digest, hex, mime, portable_name, protected_output_name, receipt_facts, safe_relative, valid_work, Receipt,
};
use archigoat::release::{parse_version, probe_detail, probe_healthy, release_from, should_replace, Release};

#[test]
fn decimal_numbers_parse_exactly() {
    assert_eq!(parse_u64("0"), Some(0));
    assert_eq!(parse_u64("42"), Some(42));
    assert_eq!(parse_u64("18446744073709551615"), Some(u64::MAX));
    assert_eq!(parse_u64("18446744073709551616"), None);
    assert_eq!(parse_u64(""), None);
    assert_eq!(parse_u64("-1"), None);
    assert_eq!(parse_u64("1a"), None);
    assert_eq!(parse_usize("1024"), Some(1024));
}

#[test]
fn versions_are_three_numbers() {
    assert_eq!(parse_version("1.2.3"), Some((1, 2, 3)));
    assert_eq!(parse_version("10.0.17"), Some((10, 0, 17)));
    assert_eq!(parse_version("1.2"), None);
    assert_eq!(parse_version("1.2.3.4"), None);
    assert_eq!(parse_version("1..3"), None);
    assert_eq!(parse_version("v1.2.3"), None);
}

#[test]
fn a_release_needs_a_version_and_a_commit() {
    let r = release_from("2.0.1", "abc123".to_string()).expect("a valid release");
    assert_eq!(r.version, (2, 0, 1));
    assert_eq!(r.commit, "abc123");
    assert!(release_from("2.0", "abc123".to_string()).is_none());
    assert!(release_from("2.0.1", String::new()).is_none());
}

#[test]
fn newer_versions_and_other_commits_replace() {
    let installed = Release { version: (1, 4, 0), commit: "aaa".to_string() };
    let newer = Release { version: (1, 4, 1), commit: "bbb".to_string() };
    let older = Release { version: (1, 3, 9), commit: "ccc".to_string() };
    let rebuilt = Release { version: (1, 4, 0), commit: "ddd".to_string() };
    let same = Release { version: (1, 4, 0), commit: "aaa".to_string() };
    assert!(should_replace(&newer, Some(&installed)));
    assert!(!should_replace(&older, Some(&installed)));
    assert!(should_replace(&rebuilt, Some(&installed)));
    assert!(!should_replace(&same, Some(&installed)));
    assert!(should_replace(&older, None));
}

#[test]
fn hex_is_lowercase_two_digits_a_byte() {
    assert_eq!(hex(&[0x00, 0x0f, 0xa0, 0xff]), "000fa0ff");
    assert_eq!(hex(&[]), "");
}

#[test]
fn digest_is_the_sha256_of_the_bytes() {
    let (len, sum) = digest(b"abc");
    assert_eq!(len, 3);
    assert_eq!(sum, "ba7816bf8f01cfea414140de5dae2223b00361a396177a9cb410ff61f20015ad");
    let (len, sum) = digest(b"");
    assert_eq!(len, 0);
    assert_eq!(sum, "e3b0c44298fc1c149afbf4c8996fb92427ae41e4649b934ca495991b7852b855");
}

#[test]
fn a_protected_output_is_named_by_its_digest() {
    assert_eq!(
        protected_output_name("abc"),
        "ba7816bf8f01cfea414140de5dae2223b00361a396177a9cb410ff61f20015ad"
    );
}

#[test]
fn work_identities_must_be_printable() {
    assert!(valid_work("work-1").is_ok());
    assert_eq!(valid_work("   ").unwrap_err(), "Work identity is invalid");
    assert_eq!(valid_work("a\nb").unwrap_err(), "Work identity is invalid");
}

#[test]
fn output_names_stay_inside_their_root() {
    assert_eq!(safe_relative("index.html").unwrap(), "index.html");
    assert_eq!(safe_relative("assets/app.js").unwrap(), "assets/app.js");
    assert_eq!(safe_relative("../escape").unwrap_err(), "Work output name is unsafe");
    assert_eq!(safe_relative("a/../../b").unwrap_err(), "Work output name is unsafe");
    assert_eq!(safe_relative("/etc/passwd").unwrap_err(), "Work output name is unsafe");
    assert_eq!(safe_relative("./a").unwrap_err(), "Work output name is unsafe");
    assert_eq!(safe_relative("").unwrap_err(), "Work output name is unsafe");
    assert_eq!(safe_relative("a\tb").unwrap_err(), "Work output name is unsafe");
}

#[test]
fn portable_names_use_forward_slashes() {
    assert_eq!(portable_name("assets\\app.js").unwrap(), "assets/app.js");
    assert_eq!(portable_name("..\\up").unwrap_err(), "Work output name is unsafe");
}

#[test]
fn media_types_follow_the_extension() {
    assert_eq!(mime("index.html"), "text/html");
    assert_eq!(mime("shot.PNG"), "image/png");
    assert_eq!(mime("a/b/photo.jpeg"), "image/jpeg");
    assert_eq!(mime("icon.svg"), "image/svg+xml");
    assert_eq!(mime("data.json"), "application/json");
    assert_eq!(mime("README"), "application/octet-stream");
    assert_eq!(mime(".hidden"), "application/octet-stream");
    assert_eq!(mime("archive.tar.zip"), "application/zip");
}

#[test]
fn a_health_probe_is_healthy_only_on_200() {
    assert!(probe_healthy(true, b"200"));
    assert!(!probe_healthy(true, b"503"));
    assert!(!probe_healthy(false, b"200"));
    assert_eq!(probe_detail(" 503 ", "", "exit status: 22"), "HTTP 503");
    assert_eq!(probe_detail("503", " refused ", "x"), "HTTP 503: refused");
    assert_eq!(probe_detail("", "Connection refused", "x"), "Connection refused");
    assert_eq!(probe_detail("", "", "exit status: 7"), "curl exited with exit status: 7");
}

fn receipt(work_id: &str, name: &str, sha: &str, bytes: u64) -> Receipt {
    Receipt {
        work_id: work_id.to_string(),
        name: name.to_string(),
        sha256: sha.to_string(),
        bytes,
        format: mime(name),
        width: None,
        height: None,
    }
}

#[test]
fn a_manifest_becomes_facts_only_when_every_file_still_matches() {
    let receipts = vec![receipt("w", "index.html", "aa", 10), receipt("w", "assets/app.js", "bb", 20)];
    let found = vec![Ok((10, "aa".to_string())), Ok((20, "bb".to_string()))];
    let facts = receipt_facts("w", "/tmp/freeze", receipts, found).unwrap();
    assert_eq!(facts.len(), 2);
    assert_eq!(facts[1].frozen_path, "/tmp/freeze/assets/app.js");
    assert_eq!(facts[1].freeze_root, "/tmp/freeze");
    assert_eq!(facts[0].format, "text/html");
    assert_eq!(facts[0].title, "");

    let changed = receipt_facts("w", "/tmp/freeze/", vec![receipt("w", "a.txt", "aa", 1)], vec![Ok((2, "aa".to_string()))]);
    assert_eq!(changed.err().unwrap(), "Frozen delivery bytes changed");
    let foreign = receipt_facts("w", "/r", vec![receipt("x", "a.txt", "aa", 1)], vec![Ok((1, "aa".to_string()))]);
    assert_eq!(foreign.err().unwrap(), "Frozen delivery ownership is invalid");
    let twice = receipt_facts(
        "w",
        "/r",
        vec![receipt("w", "a.txt", "aa", 1), receipt("w", "a.txt", "aa", 1)],
        vec![Ok((1, "aa".to_string())), Ok((1, "aa".to_string()))],
    );
    assert_eq!(twice.err().unwrap(), "Frozen delivery ownership is invalid");
    let escape = receipt_facts("w", "/r", vec![receipt("w", "../a", "aa", 1)], vec![Ok((1, "aa".to_string()))]);
    assert_eq!(escape.err().unwrap(), "Work output name is unsafe");
    let unread = receipt_facts("w", "/r", vec![receipt("w", "a", "aa", 1)], vec![Err("Frozen delivery file is unavailable".to_string())]);
    assert_eq!(unread.err().unwrap(), "Frozen delivery file is unavailable");
    assert_eq!(receipt_facts(" ", "/r", Vec::new(), Vec::new()).err().unwrap(), "Work identity is invalid");
    let root_only = receipt_facts("w", "/r/", vec![receipt("w", "a", "aa", 1)], vec![Ok((1, "aa".to_string()))]).unwrap();
    assert_eq!(root_only[0].frozen_path, "/r/a");
}
