use archigoat::shell::{
    account_outbound, handoff_body, handoff_failure, handoff_session, loopback_outbound, BoundedBody,
    MAX_ACCOUNT_BODY,
    account_authorization_url, allowed_header, allowed_loopback_header, allowed_loopback_path,
    allowed_path, clear_handoff_from, handoff_token, handoff_token_from, peek_handoff_from,
    start_error_from, store_handoff_in, trusted_handoff, valid_token, valid_voucher, UrlParts,
};

const TOKEN: &str = "0123456789abcdef0123456789abcdef0123456789abcdef0123456789abcdef";

#[test]
fn tokens_are_sixty_four_lowercase_hex_digits() {
    assert!(valid_token(TOKEN));
    assert!(!valid_token(&TOKEN.to_uppercase()));
    assert!(!valid_token(&TOKEN[1..]));
    assert!(!valid_token(""));
}

#[test]
fn vouchers_are_a_payload_a_dot_and_a_signature() {
    assert!(valid_voucher("abc.DEF-_9"));
    assert!(!valid_voucher(".abc"));
    assert!(!valid_voucher("abc."));
    assert!(!valid_voucher("abc"));
    assert!(!valid_voucher("a.b.c"));
    assert!(!valid_voucher("a b.c"));
    assert!(!valid_voucher(&format!("a.{}", "b".repeat(1023))));
    assert!(valid_voucher(&format!("a.{}", "b".repeat(1022))));
}

#[test]
fn only_named_account_routes_leave_the_shell() {
    assert!(allowed_path("GET", "/auth/me"));
    assert!(allowed_path("GET", "/auth/work/status?id=1"));
    assert!(allowed_path("GET", "/auth/work/file?id=1&file=index.html"));
    assert!(!allowed_path("GET", "/auth/work/file?id=1"));
    assert!(allowed_path("GET", "/auth/attachments/abc"));
    assert!(allowed_path("POST", "/auth/goat/steer"));
    assert!(!allowed_path("POST", "/auth/me"));
    assert!(allowed_path("DELETE", "/auth/pair/0123456789ABCDEF0123456789abcdef"));
    assert!(!allowed_path("DELETE", "/auth/pair/xyz"));
    assert!(!allowed_path("GET", "/auth/../admin"));
    assert!(!allowed_path("GET", "/auth/me#x"));
    assert!(!allowed_path("GET", "/admin"));
    assert!(!allowed_path("PUT", "/auth/me"));
}

#[test]
fn only_named_headers_cross() {
    assert!(allowed_header("Authorization"));
    assert!(allowed_header("content-type"));
    assert!(!allowed_header("cookie"));
    assert!(allowed_loopback_header("X-Work-Id"));
    assert!(!allowed_loopback_header("authorization"));
}

#[test]
fn only_named_daemon_routes_are_reached() {
    assert!(allowed_loopback_path("GET", "/v1/health"));
    assert!(allowed_loopback_path("DELETE", "/v1/work?id=w"));
    assert!(allowed_loopback_path("POST", "/v1/work/steer"));
    assert!(!allowed_loopback_path("DELETE", "/v1/health"));
    assert!(!allowed_loopback_path("GET", "/v1/../etc"));
    assert!(!allowed_loopback_path("GET", "/v2/health"));
}

#[test]
fn a_handoff_is_held_until_its_own_url_claims_it() {
    let mut slot: Option<String> = None;
    store_handoff_in(&mut slot, "archigoat://open?token=a".to_string());
    assert_eq!(peek_handoff_from(&slot), Some("archigoat://open?token=a".to_string()));
    clear_handoff_from(&mut slot, "archigoat://open?token=b");
    assert_eq!(slot, Some("archigoat://open?token=a".to_string()));
    clear_handoff_from(&mut slot, "archigoat://open?token=a");
    assert_eq!(slot, None);
}

fn parts(scheme: &str, host: Option<&str>, query: Vec<(&str, &str)>) -> UrlParts {
    UrlParts {
        scheme: scheme.to_string(),
        host: host.map(str::to_string),
        path: String::new(),
        fragment: None,
        username: String::new(),
        password: None,
        port: None,
        query: query.into_iter().map(|(k, v)| (k.to_string(), v.to_string())).collect(),
    }
}

#[test]
fn a_handoff_names_exactly_one_token() {
    assert_eq!(
        handoff_token_from(Some(parts("archigoat", Some("open"), vec![("token", TOKEN)]))),
        Some(TOKEN.to_string())
    );
    assert_eq!(handoff_token_from(Some(parts("https", Some("open"), vec![("token", TOKEN)]))), None);
    assert_eq!(handoff_token_from(Some(parts("archigoat", Some("other"), vec![("token", TOKEN)]))), None);
    assert_eq!(
        handoff_token_from(Some(parts("archigoat", Some("open"), vec![("token", TOKEN), ("x", "y")]))),
        None
    );
    assert_eq!(handoff_token_from(Some(parts("archigoat", Some("open"), vec![("token", "short")]))), None);
    let mut with_port = parts("archigoat", Some("open"), vec![("token", TOKEN)]);
    with_port.port = Some(8080);
    assert_eq!(handoff_token_from(Some(with_port)), None);
    assert_eq!(handoff_token_from(None), None);
}

#[test]
fn a_deep_link_yields_its_token() {
    assert_eq!(handoff_token(&format!("archigoat://open?token={TOKEN}")), Some(TOKEN.to_string()));
    assert_eq!(handoff_token(&format!("archigoat://open/?token={TOKEN}")), Some(TOKEN.to_string()));
    assert_eq!(handoff_token(&format!("archigoat://open?token={TOKEN}#frag")), None);
    assert_eq!(handoff_token("not a url"), None);
}

#[test]
fn the_authorization_url_replaces_path_and_query() {
    assert_eq!(
        account_authorization_url("https://triangoat.example/some/path?x=1#f").unwrap(),
        "https://triangoat.example/?authorize=archigoat"
    );
    assert_eq!(account_authorization_url("not a url").unwrap_err(), "TrianGoat URL is invalid");
}

#[test]
fn a_start_error_argument_is_reported() {
    let args = vec!["archigoat".to_string(), "--start-error=Port busy".to_string()];
    assert_eq!(start_error_from(&args), Some("Port busy".to_string()));
    let args = vec!["archigoat".to_string(), "--start-error=".to_string()];
    assert_eq!(start_error_from(&args), None);
    assert_eq!(start_error_from(&vec!["archigoat".to_string()]), None);
}

#[test]
fn only_a_trusted_deep_link_is_kept() {
    let link = format!("archigoat://open?token={TOKEN}");
    assert_eq!(trusted_handoff(&link), Some(link.clone()));
    assert_eq!(trusted_handoff("archigoat://open?token=nope"), None);
}

fn headers(pairs: &[(&str, &str)]) -> Vec<(String, String)> {
    pairs.iter().map(|(a, b)| (a.to_string(), b.to_string())).collect()
}

#[test]
fn an_account_request_leaves_only_on_a_named_route() {
    let o = account_outbound("https://triangoat.com", "get", "/auth/me", headers(&[("Authorization", "Bearer x")]), 0).unwrap();
    assert_eq!(o.method, "GET");
    assert_eq!(o.url, "https://triangoat.com/auth/me");
    assert_eq!(o.headers, headers(&[("Authorization", "Bearer x")]));
    assert_eq!(account_outbound("https://t", "GET", "/admin", Vec::new(), 0).err().unwrap(), "Account route is not allowed");
    assert_eq!(
        account_outbound("https://t", "POST", "/auth/logout", Vec::new(), MAX_ACCOUNT_BODY + 1).err().unwrap(),
        "Account request is too large"
    );
    assert_eq!(
        account_outbound("https://t", "GET", "/auth/me", headers(&[("Origin", "evil")]), 0).err().unwrap(),
        "Account header is not allowed"
    );
    assert_eq!(
        account_outbound("https://t", "GET", "/auth/me", headers(&[("cookie", "a")]), 0).err().unwrap(),
        "Account header is not allowed"
    );
}

#[test]
fn a_daemon_request_presents_its_voucher() {
    let o = loopback_outbound("post", "/v1/work", headers(&[("x-work-id", "w")]), 10, true, Some("abc.def".to_string())).unwrap();
    assert_eq!(o.method, "POST");
    assert_eq!(o.url, "http://127.0.0.1:17891/v1/work");
    assert_eq!(
        o.headers,
        headers(&[("Authorization", "Bearer abc.def"), ("x-app-protocol", "15"), ("x-work-id", "w")])
    );
    let plain = loopback_outbound("GET", "/v1/health", Vec::new(), 0, false, None).unwrap();
    assert!(plain.headers.is_empty());
    assert_eq!(
        loopback_outbound("GET", "/v1/health", Vec::new(), 0, true, None).err().unwrap(),
        "Loopback voucher is invalid"
    );
    assert_eq!(
        loopback_outbound("GET", "/v1/health", headers(&[("authorization", "x")]), 0, false, None).err().unwrap(),
        "Loopback header is not allowed"
    );
    assert_eq!(loopback_outbound("PUT", "/v1/work", Vec::new(), 0, false, None).err().unwrap(), "Loopback route is not allowed");
}

#[test]
fn a_response_body_never_passes_its_bound() {
    assert_eq!(BoundedBody::open(Some(MAX_ACCOUNT_BODY as u64 + 1)).err().unwrap(), "Native response is too large");
    let mut body = BoundedBody::open(None).unwrap();
    body.absorb(b"abc").unwrap();
    body.absorb(b"de").unwrap();
    assert_eq!(body.absorb(&vec![0u8; MAX_ACCOUNT_BODY]).unwrap_err(), "Native response is too large");
    assert_eq!(body.finish(), b"abcde".to_vec());
}

#[test]
fn a_handoff_forwards_only_a_trusted_token() {
    let link = format!("archigoat://open?token={TOKEN}");
    assert_eq!(handoff_body(&link).unwrap(), format!("{{\"token\":\"{TOKEN}\"}}"));
    assert_eq!(handoff_body("https://evil.example/?token=x").unwrap_err(), "Handoff URL is not trusted");
    assert_eq!(handoff_failure("503 Service Unavailable", "  "), "Daemon handoff failed (503 Service Unavailable)");
    assert_eq!(handoff_failure("409 Conflict", " busy \n"), "Daemon handoff failed (409 Conflict): busy");
    assert_eq!(handoff_session(TOKEN.to_string()).unwrap(), TOKEN);
    assert_eq!(handoff_session("short".to_string()).unwrap_err(), "Daemon handoff response is invalid");
}
