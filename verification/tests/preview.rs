use archigoat::preview::{
    frame_url, framed_policy, header_value, span, split_text, valid_id, PreviewStore, Staged, MAX_ITEMS, MAX_MEDIA,
    MAX_POLICY,
};

#[test]
fn product_ids_are_short_and_url_safe() {
    assert!(valid_id("run-42_A"));
    assert!(!valid_id(""));
    assert!(!valid_id("a/b"));
    assert!(!valid_id("a.b"));
    assert!(valid_id(&"x".repeat(80)));
    assert!(!valid_id(&"x".repeat(81)));
}

#[test]
fn frames_load_from_the_platform_scheme() {
    assert_eq!(frame_url("run-1", false), "preview://localhost/run-1");
    assert_eq!(frame_url("run-1", true), "http://preview.localhost/run-1");
}

#[test]
fn split_text_keeps_empty_pieces() {
    assert_eq!(split_text("a;;b", ';'), vec!["a".to_string(), String::new(), "b".to_string()]);
    assert_eq!(split_text("", ';'), vec![String::new()]);
    assert_eq!(split_text("abc", ';'), vec!["abc".to_string()]);
}

#[test]
fn only_the_framing_rule_leaves_a_products_policy() {
    assert_eq!(
        framed_policy("default-src 'self'; frame-ancestors 'none';  img-src data: "),
        Some("default-src 'self'; img-src data:".to_string())
    );
    assert_eq!(framed_policy("FRAME-ANCESTORS 'none'"), None);
    assert_eq!(framed_policy(" ; ;"), None);
}

#[test]
fn one_range_is_served() {
    assert_eq!(span("bytes=0-99", 1000), Some((0, 99)));
    assert_eq!(span(" bytes=900- ", 1000), Some((900, 999)));
    assert_eq!(span("bytes=-100", 1000), Some((900, 999)));
    assert_eq!(span("bytes=-5000", 1000), Some((0, 999)));
    assert_eq!(span("bytes=10-5000", 1000), Some((10, 999)));
    assert_eq!(span("bytes=1000-", 1000), None);
    assert_eq!(span("bytes=5-2", 1000), None);
    assert_eq!(span("bytes=0-1,5-6", 1000), None);
    assert_eq!(span("items=0-1", 1000), None);
    assert_eq!(span("bytes=-0", 1000), None);
    assert_eq!(span("bytes=0-1", 0), None);
}

fn staged(sha: &str, bytes: usize) -> Staged {
    Staged { sha256: sha.to_string(), media: "text/html".to_string(), policy: None, bytes: vec![7u8; bytes] }
}

#[test]
fn a_staged_product_is_ready_and_copied() {
    let mut store = PreviewStore::new();
    assert!(!store.ready("a", "s1"));
    store.keep("a", staged("s1", 3));
    assert!(store.ready("a", "s1"));
    assert!(!store.ready("a", "s2"));
    let (media, policy, bytes) = store.copy("a").unwrap();
    assert_eq!(media, "text/html");
    assert_eq!(policy, None);
    assert_eq!(bytes, vec![7u8; 3]);
    store.keep("a", staged("s2", 1));
    assert!(store.ready("a", "s2"));
    assert!(!store.ready("a", "s1"));
    assert!(store.copy("b").is_none());
}

#[test]
fn the_oldest_products_leave_a_full_page() {
    let mut store = PreviewStore::new();
    for i in 0..(MAX_ITEMS + 2) {
        store.keep(&format!("p{i}"), staged("s", 1));
    }
    assert!(store.copy("p0").is_none());
    assert!(store.copy("p1").is_none());
    assert!(store.copy("p2").is_some());
    assert!(store.copy(&format!("p{}", MAX_ITEMS + 1)).is_some());
}

#[test]
fn response_headers_are_kept_within_their_bounds() {
    assert_eq!(header_value(Some("  text/html  "), MAX_MEDIA), Some("text/html".to_string()));
    assert_eq!(header_value(Some("   "), MAX_MEDIA), None);
    assert_eq!(header_value(None, MAX_MEDIA), None);
    assert_eq!(header_value(Some(&"x".repeat(129)), MAX_MEDIA), None);
    assert_eq!(header_value(Some(&"x".repeat(2048)), MAX_POLICY).map(|v| v.len()), Some(2048));
}

#[test]
fn staging_answers_before_any_download() {
    let mut store = PreviewStore::new();
    assert_eq!(store.stage_opening("bad/id", "s", true, false).unwrap_err(), "Product is not available");
    assert_eq!(store.stage_opening("p1", "s", false, false).unwrap(), Some((401, String::new())));
    assert_eq!(store.stage_opening("p1", "s", true, false).unwrap(), None);
    let (status, url) = store.stage_downloaded("p1", "s".to_string(), 200, true, Some("image/png"), Some("frame-ancestors 'none'; img-src data:"), vec![1, 2, 3], false);
    assert_eq!(status, 200);
    assert_eq!(url, "preview://localhost/p1");
    assert_eq!(store.stage_opening("p1", "s", false, true).unwrap(), Some((200, "http://preview.localhost/p1".to_string())));
    let (_, policy, _) = store.copy("p1").unwrap();
    assert_eq!(policy, Some("img-src data:".to_string()));
    let (status, url) = store.stage_downloaded("p2", "t".to_string(), 403, false, None, None, Vec::new(), false);
    assert_eq!((status, url), (403, String::new()));
    assert!(store.copy("p2").is_none());
    store.stage_downloaded("p3", "u".to_string(), 200, true, None, None, vec![9], false);
    assert_eq!(store.copy("p3").unwrap().0, "application/octet-stream");
}

#[test]
fn a_frame_gets_its_whole_product_or_one_range() {
    let mut store = PreviewStore::new();
    store.keep("clip", Staged { sha256: "s".to_string(), media: "video/mp4".to_string(), policy: Some("default-src 'self'".to_string()), bytes: (0u8..100).collect() });
    let whole = store.response("/clip", None);
    assert_eq!(whole.status, 200);
    assert_eq!(whole.body.len(), 100);
    assert_eq!(
        whole.headers,
        vec![
            ("content-type".to_string(), "video/mp4".to_string()),
            ("accept-ranges".to_string(), "bytes".to_string()),
            ("cache-control".to_string(), "no-store".to_string()),
            ("x-content-type-options".to_string(), "nosniff".to_string()),
            ("content-security-policy".to_string(), "default-src 'self'".to_string()),
        ]
    );
    let part = store.response("//clip", Some("bytes=10-19"));
    assert_eq!(part.status, 206);
    assert_eq!(part.body, (10u8..20).collect::<Vec<u8>>());
    assert_eq!(part.headers.last().unwrap(), &("content-range".to_string(), "bytes 10-19/100".to_string()));
    let bad = store.response("/clip", Some("bytes=500-"));
    assert_eq!(bad.status, 200);
    let missing = store.response("/nothing", None);
    assert_eq!(missing.status, 404);
    assert!(missing.headers.is_empty() && missing.body.is_empty());
}
