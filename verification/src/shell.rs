//! The desktop shell's gates: which tokens, vouchers, routes and headers may cross to TrianGoat
//! or to the local daemon, and how one deep-link handoff is held until it is claimed.

use vstd::prelude::*;
use crate::text::{
    before_first, chars_of, find_char, has_prefix, lower_chars, lower_text, push_text, same_text,
    seq_contains, slice_text, starts_with, text_contains,
};

verus! {

pub open spec fn is_lower_hex(c: char) -> bool {
    ('0' <= c && c <= '9') || ('a' <= c && c <= 'f')
}

/// A one-time handoff or session token: 64 lowercase hexadecimal digits.
pub open spec fn token_text(s: Seq<char>) -> bool {
    s.len() == 64 && forall|i: int| 0 <= i < s.len() ==> is_lower_hex(#[trigger] s[i])
}

/// ValidToken accepts only the exact token shape TrianGoat issues.
pub fn valid_token(value: &str) -> (r: bool)
    ensures
        r == token_text(value@),
{
    let v = chars_of(value);
    if v.len() != 64 {
        return false;
    }
    let mut i: usize = 0;
    while i < v.len()
        invariant
            v@ == value@,
            i <= v@.len(),
            forall|k: int| 0 <= k < i ==> is_lower_hex(#[trigger] v@[k]),
        decreases v.len() - i,
    {
        let c = v[i];
        if !(('0' <= c && c <= '9') || ('a' <= c && c <= 'f')) {
            return false;
        }
        i = i + 1;
    }
    true
}

pub open spec fn voucher_char(c: char) -> bool {
    ('0' <= c && c <= '9') || ('a' <= c && c <= 'z') || ('A' <= c && c <= 'Z') || c == '-' || c
        == '_'
}

/// A voucher: a non-empty payload, one dot, a non-empty signature, each of URL-safe characters,
/// at most 1024 bytes in all.
pub open spec fn voucher_text(s: Seq<char>) -> bool {
    s.len() <= 1024 && exists|d: int|
        0 < d < s.len() - 1 && #[trigger] s[d] == '.' && forall|k: int|
            0 <= k < s.len() && k != d ==> voucher_char(#[trigger] s[k])
}

/// ValidVoucher accepts only a signed payload in the shape TrianGoat issues.
pub fn valid_voucher(value: &str) -> (r: bool)
    ensures
        r == voucher_text(value@),
{
    let v = chars_of(value);
    if v.len() > 1024 {
        // A voucher of valid characters has as many bytes as characters.
        assert(!voucher_text(value@));
        return false;
    }
    let dot = match find_char(&v, '.') {
        Some(d) => d,
        None => {
            proof {
                crate::text::lemma_first_index(v@, '.');
            }
            return false;
        },
    };
    proof {
        crate::text::lemma_first_index(v@, '.');
    }
    if dot == 0 || dot + 1 >= v.len() {
        proof {
            if voucher_text(value@) {
                let d = choose|d: int|
                    0 < d < value@.len() - 1 && #[trigger] value@[d] == '.' && forall|k: int|
                        0 <= k < value@.len() && k != d ==> voucher_char(#[trigger] value@[k]);
                if d != dot {
                    assert(!voucher_char(value@[dot as int]));
                }
            }
        }
        return false;
    }
    let mut i: usize = 0;
    while i < v.len()
        invariant
            v@ == value@,
            0 < dot < v@.len() - 1,
            v@[dot as int] == '.',
            i <= v@.len(),
            forall|k: int| 0 <= k < i && k != dot ==> voucher_char(#[trigger] v@[k]),
        decreases v.len() - i,
    {
        let c = v[i];
        if i != dot && !(('0' <= c && c <= '9') || ('a' <= c && c <= 'z') || ('A' <= c && c <= 'Z')
            || c == '-' || c == '_') {
            proof {
                if voucher_text(value@) {
                    let d = choose|d: int|
                        0 < d < value@.len() - 1 && #[trigger] value@[d] == '.' && forall|k: int|
                            0 <= k < value@.len() && k != d ==> voucher_char(#[trigger] value@[k]);
                    if d != dot {
                        assert(!voucher_char(value@[dot as int]));
                    }
                    assert(!voucher_char(value@[i as int]));
                }
            }
            return false;
        }
        i = i + 1;
    }
    assert(voucher_text(value@)) by {
        assert(value@[dot as int] == '.');
    }
    true
}

/// The route a request path names: the path before its query.
pub open spec fn route_of(path: Seq<char>) -> Seq<char> {
    before_first(path, '?')
}

fn route_text(path: &str) -> (r: String)
    ensures
        r@ == route_of(path@),
{
    let v = chars_of(path);
    match find_char(&v, '?') {
        Some(i) => {
            proof {
                crate::text::lemma_first_index(v@, '?');
            }
            slice_text(&v, 0, i)
        },
        None => {
            proof {
                assert(v@.subrange(0, v@.len() as int) =~= v@);
            }
            slice_text(&v, 0, v.len())
        },
    }
}

pub open spec fn is_hex(c: char) -> bool {
    ('0' <= c && c <= '9') || ('a' <= c && c <= 'f') || ('A' <= c && c <= 'F')
}

/// A pairing identity: 32 hexadecimal digits of either case.
pub open spec fn pair_id(s: Seq<char>) -> bool {
    s.len() == 32 && forall|i: int| 0 <= i < s.len() ==> is_hex(#[trigger] s[i])
}

fn valid_pair_id(v: &Vec<char>, start: usize) -> (r: bool)
    requires
        start <= v@.len(),
    ensures
        r == pair_id(v@.subrange(start as int, v@.len() as int)),
{
    if v.len() - start != 32 {
        return false;
    }
    let mut i: usize = start;
    while i < v.len()
        invariant
            start <= i <= v@.len(),
            v@.len() - start == 32,
            forall|k: int| start <= k < i ==> is_hex(#[trigger] v@[k]),
        decreases v.len() - i,
    {
        let c = v[i];
        if !(('0' <= c && c <= '9') || ('a' <= c && c <= 'f') || ('A' <= c && c <= 'F')) {
            assert(v@.subrange(start as int, v@.len() as int)[i - start] == c);
            return false;
        }
        i = i + 1;
    }
    assert forall|k: int| 0 <= k < 32 implies is_hex(
        #[trigger] v@.subrange(start as int, v@.len() as int)[k],
    ) by {
        assert(v@.subrange(start as int, v@.len() as int)[k] == v@[start + k]);
    }
    true
}

/// The Account routes a GET may reach without further conditions.
pub open spec fn account_get_routes() -> Seq<Seq<char>> {
    seq![
        "/auth/app/voucher"@,
        "/auth/me"@,
        "/auth/goat/sessions"@,
        "/auth/goat/turns"@,
        "/auth/mine"@,
        "/auth/mine/preview"@,
        "/auth/pair/roster"@,
        "/auth/work/pending"@,
        "/auth/work/pending/input"@,
        "/auth/work/status"@,
        "/auth/remote/work"@,
    ]
}

/// The Account routes a POST may reach.
pub open spec fn account_post_routes() -> Seq<Seq<char>> {
    seq![
        "/auth/goat/sessions"@,
        "/auth/goat/append"@,
        "/auth/goat/steer"@,
        "/auth/goat/remove"@,
        "/auth/goat/rename"@,
        "/auth/remote/stop"@,
        "/auth/pair/offer"@,
        "/auth/mine/public"@,
        "/auth/mine/private"@,
        "/auth/mine/delete"@,
        "/auth/mine/rename"@,
        "/auth/logout"@,
        "/auth/attachments"@,
    ]
}

/// Whether one Account request may leave the shell.
pub open spec fn account_route_allowed(method: Seq<char>, path: Seq<char>) -> bool {
    let route = route_of(path);
    if !starts_with(path, "/auth/"@) || seq_contains(path, ".."@) || seq_contains(path, "#"@) {
        false
    } else if method == "GET"@ {
        account_get_routes().contains(route) || (route == "/auth/work/file"@ && seq_contains(
            path,
            "id="@,
        ) && seq_contains(path, "file="@)) || starts_with(route, "/auth/attachments/"@)
    } else if method == "POST"@ {
        account_post_routes().contains(route)
    } else if method == "DELETE"@ {
        (starts_with(route, "/auth/pair/"@) && pair_id(route.subrange(11, route.len() as int)))
            || starts_with(route, "/auth/attachments/"@)
    } else {
        false
    }
}

/// Whether one text is among a list of literals.
fn listed(value: &str, list: &Vec<&str>, Ghost(spec): Ghost<Seq<Seq<char>>>) -> (r: bool)
    requires
        list@.len() == spec.len(),
        forall|k: int| 0 <= k < spec.len() ==> (#[trigger] list@[k])@ == spec[k],
    ensures
        r == spec.contains(value@),
{
    let mut i: usize = 0;
    while i < list.len()
        invariant
            list@.len() == spec.len(),
            forall|k: int| 0 <= k < spec.len() ==> (#[trigger] list@[k])@ == spec[k],
            i <= list@.len(),
            forall|k: int| 0 <= k < i ==> spec[k] != value@,
        decreases list.len() - i,
    {
        if same_text(list[i], value) {
            assert(spec[i as int] == value@);
            return true;
        }
        i = i + 1;
    }
    false
}

/// AllowedPath keeps the shell a narrow proxy: only named Account routes leave it.
pub fn allowed_path(method: &str, path: &str) -> (r: bool)
    ensures
        r == account_route_allowed(method@, path@),
{
    proof {
        reveal_strlit("/auth/pair/");
    }
    if !has_prefix(path, "/auth/") || text_contains(path, "..") || text_contains(path, "#") {
        return false;
    }
    let route = route_text(path);
    if same_text(method, "GET") {
        let gets: Vec<&str> = vec![
            "/auth/app/voucher",
            "/auth/me",
            "/auth/goat/sessions",
            "/auth/goat/turns",
            "/auth/mine",
            "/auth/mine/preview",
            "/auth/pair/roster",
            "/auth/work/pending",
            "/auth/work/pending/input",
            "/auth/work/status",
            "/auth/remote/work",
        ];
        if listed(route.as_str(), &gets, Ghost(account_get_routes())) {
            return true;
        }
        if same_text(route.as_str(), "/auth/work/file") {
            proof {
                reveal_strlit("/auth/work/file");
                reveal_strlit("/auth/attachments/");
                assert(route@[6] != "/auth/attachments/"@[6]);
                assert(!starts_with(route@, "/auth/attachments/"@));
            }
            return text_contains(path, "id=") && text_contains(path, "file=");
        }
        has_prefix(route.as_str(), "/auth/attachments/")
    } else if same_text(method, "POST") {
        let posts: Vec<&str> = vec![
            "/auth/goat/sessions",
            "/auth/goat/append",
            "/auth/goat/steer",
            "/auth/goat/remove",
            "/auth/goat/rename",
            "/auth/remote/stop",
            "/auth/pair/offer",
            "/auth/mine/public",
            "/auth/mine/private",
            "/auth/mine/delete",
            "/auth/mine/rename",
            "/auth/logout",
            "/auth/attachments",
        ];
        listed(route.as_str(), &posts, Ghost(account_post_routes()))
    } else if same_text(method, "DELETE") {
        if has_prefix(route.as_str(), "/auth/pair/") {
            let v = chars_of(route.as_str());
            if valid_pair_id(&v, 11) {
                return true;
            }
        }
        has_prefix(route.as_str(), "/auth/attachments/")
    } else {
        false
    }
}

/// The headers an Account request may carry, by lowercase name.
pub open spec fn account_headers() -> Seq<Seq<char>> {
    seq!["authorization"@, "content-type"@, "x-app-device"@, "x-file-name"@]
}

/// AllowedHeader passes only the headers an Account route needs.
pub fn allowed_header(name: &str) -> (r: bool)
    ensures
        r == account_headers().contains(lower_text(name@)),
{
    let lower = crate::text::string_of(lower_chars(name).as_slice());
    let list: Vec<&str> = vec!["authorization", "content-type", "x-app-device", "x-file-name"];
    listed(lower.as_str(), &list, Ghost(account_headers()))
}

/// The daemon routes the shell may reach, by method and route.
pub open spec fn loopback_routes() -> Seq<(Seq<char>, Seq<char>)> {
    seq![
        ("GET"@, "/v1/health"@),
        ("GET"@, "/v1/status"@),
        ("GET"@, "/v1/work"@),
        ("POST"@, "/v1/connect"@),
        ("POST"@, "/v1/connect/code"@),
        ("POST"@, "/v1/session/end"@),
        ("POST"@, "/v1/input"@),
        ("POST"@, "/v1/work"@),
        ("POST"@, "/v1/work/deliver"@),
        ("POST"@, "/v1/work/steer"@),
        ("DELETE"@, "/v1/work"@),
    ]
}

/// Whether one daemon request may leave the shell.
pub open spec fn loopback_route_allowed(method: Seq<char>, path: Seq<char>) -> bool {
    starts_with(path, "/v1/"@) && !seq_contains(path, ".."@) && !seq_contains(path, "#"@)
        && loopback_routes().contains((method, route_of(path)))
}

/// AllowedLoopbackPath keeps the shell's daemon calls to the routes its screens use.
pub fn allowed_loopback_path(method: &str, path: &str) -> (r: bool)
    ensures
        r == loopback_route_allowed(method@, path@),
{
    if !has_prefix(path, "/v1/") || text_contains(path, "..") || text_contains(path, "#") {
        return false;
    }
    let route = route_text(path);
    let methods: Vec<&str> = vec!["GET", "GET", "GET", "POST", "POST", "POST", "POST", "POST", "POST", "POST", "DELETE"];
    let routes: Vec<&str> = vec![
        "/v1/health",
        "/v1/status",
        "/v1/work",
        "/v1/connect",
        "/v1/connect/code",
        "/v1/session/end",
        "/v1/input",
        "/v1/work",
        "/v1/work/deliver",
        "/v1/work/steer",
        "/v1/work",
    ];
    let ghost table = loopback_routes();
    let mut i: usize = 0;
    while i < 11
        invariant
            methods@.len() == 11,
            routes@.len() == 11,
            table == loopback_routes(),
            route@ == route_of(path@),
            starts_with(path@, "/v1/"@),
            !seq_contains(path@, ".."@),
            !seq_contains(path@, "#"@),
            forall|k: int| 0 <= k < 11 ==> (#[trigger] methods@[k])@ == table[k].0,
            forall|k: int| 0 <= k < 11 ==> (#[trigger] routes@[k])@ == table[k].1,
            i <= 11,
            forall|k: int| 0 <= k < i ==> #[trigger] table[k] != (method@, route@),
        decreases 11 - i,
    {
        if same_text(methods[i], method) && same_text(routes[i], route.as_str()) {
            assert(table[i as int] == (method@, route@));
            assert(table.contains((method@, route_of(path@))));
            return true;
        }
        i = i + 1;
    }
    false
}

/// The headers a daemon request may carry, by lowercase name.
pub open spec fn loopback_headers() -> Seq<Seq<char>> {
    seq![
        "content-type"@,
        "x-work-id"@,
        "x-work-kind"@,
        "x-work-input-id"@,
        "x-work-input-bytes"@,
        "x-work-input-sha256"@,
        "x-file-name"@,
    ]
}

/// AllowedLoopbackHeader passes only the headers a daemon route needs.
pub fn allowed_loopback_header(name: &str) -> (r: bool)
    ensures
        r == loopback_headers().contains(lower_text(name@)),
{
    let lower = crate::text::string_of(lower_chars(name).as_slice());
    let list: Vec<&str> = vec![
        "content-type",
        "x-work-id",
        "x-work-kind",
        "x-work-input-id",
        "x-work-input-bytes",
        "x-work-input-sha256",
        "x-file-name",
    ];
    listed(lower.as_str(), &list, Ghost(loopback_headers()))
}

/// StoreHandoff parks one deep link until it is claimed.
pub fn store_handoff_in(slot: &mut Option<String>, url: String)
    ensures
        *final(slot) == Some(url),
{
    *slot = Some(url);
}

/// PeekHandoff reads the parked deep link without taking it: a failed forward keeps it for the
/// next attempt.
pub fn peek_handoff_from(slot: &Option<String>) -> (r: Option<String>)
    ensures
        crate::evidence::opt_text(r) == crate::evidence::opt_text(*slot),
{
    crate::state::copy_text(slot)
}

/// The slot after a claimed deep link was cleared from it.
pub open spec fn cleared(slot: Option<Seq<char>>, url: Seq<char>) -> Option<Seq<char>> {
    if slot == Some(url) {
        None
    } else {
        slot
    }
}

/// ClearHandoff drops the parked deep link only when it is the one that was claimed.
pub fn clear_handoff_from(slot: &mut Option<String>, url: &str)
    ensures
        crate::evidence::opt_text(*final(slot)) == cleared(crate::evidence::opt_text(*old(slot)), url@),
{
    let same = match slot {
        Some(held) => same_text(held.as_str(), url),
        None => false,
    };
    if same {
        *slot = None;
    }
}

/// Claiming the parked deep link empties the slot; claiming any other link leaves it parked.
pub proof fn handoff_slot_law(url: Seq<char>, other: Seq<char>)
    requires
        url != other,
    ensures
        cleared(Some(url), url) is None,
        cleared(Some(url), other) == Some(url),
        cleared(None, url) is None,
{
}

/// The parts of a parsed URL that a deep link is judged by.
pub struct UrlParts {
    pub scheme: String,
    pub host: Option<String>,
    pub path: String,
    pub fragment: Option<String>,
    pub username: String,
    pub password: Option<String>,
    pub port: Option<u16>,
    pub query: Vec<(String, String)>,
}

pub struct UrlPartsView {
    pub scheme: Seq<char>,
    pub host: Option<Seq<char>>,
    pub path: Seq<char>,
    pub fragment: Option<Seq<char>>,
    pub username: Seq<char>,
    pub password: Option<Seq<char>>,
    pub port: Option<u16>,
    pub query: Seq<(Seq<char>, Seq<char>)>,
}

impl View for UrlParts {
    type V = UrlPartsView;

    open spec fn view(&self) -> UrlPartsView {
        UrlPartsView {
            scheme: self.scheme@,
            host: crate::evidence::opt_text(self.host),
            path: self.path@,
            fragment: crate::evidence::opt_text(self.fragment),
            username: self.username@,
            password: crate::evidence::opt_text(self.password),
            port: self.port,
            query: self.query@.map_values(|p: (String, String)| (p.0@, p.1@)),
        }
    }
}

pub open spec fn opt_parts(p: Option<UrlParts>) -> Option<UrlPartsView> {
    match p {
        Some(p) => Some(p@),
        None => None,
    }
}

/// What the URL standard parses one text into, if it is a URL: its scheme, host, path, fragment,
/// credentials, port and decoded query pairs.
pub uninterp spec fn url_parts(value: Seq<char>) -> Option<UrlPartsView>;

/// Calls `url::Url::parse` and reads back the parsed URL's scheme, host, path, fragment,
/// username, password, port and `query_pairs`. The contract only names the result.
#[verifier::external_body]
fn parse_url(value: &str) -> (r: Option<UrlParts>)
    ensures
        opt_parts(r) == url_parts(value@),
{
    let u = url::Url::parse(value).ok()?;
    let query = u.query_pairs().map(|(k, v)| (k.into_owned(), v.into_owned())).collect();
    Some(UrlParts {
        scheme: u.scheme().to_owned(),
        host: u.host_str().map(str::to_owned),
        path: u.path().to_owned(),
        fragment: u.fragment().map(str::to_owned),
        username: u.username().to_owned(),
        password: u.password().map(str::to_owned),
        port: u.port(),
        query,
    })
}

/// The token a trusted `archigoat://open?token=...` deep link carries.
pub open spec fn handoff_of(parts: Option<UrlPartsView>) -> Option<Seq<char>> {
    match parts {
        None => None,
        Some(p) => {
            let trusted = p.scheme == "archigoat"@ && p.host == Some("open"@) && (p.path.len() == 0
                || p.path == "/"@);
            if !trusted || p.fragment is Some || p.username.len() != 0 || p.password is Some
                || p.port is Some {
                None
            } else if p.query.len() != 1 || p.query[0].0 != "token"@ || !token_text(p.query[0].1) {
                None
            } else {
                Some(p.query[0].1)
            }
        },
    }
}

/// HandoffTokenFrom judges one parsed deep link: only the exact shape the Account page opens.
pub fn handoff_token_from(parts: Option<UrlParts>) -> (r: Option<String>)
    ensures
        crate::evidence::opt_text(r) == handoff_of(opt_parts(parts)),
{
    let p = match parts {
        Some(p) => p,
        None => return None,
    };
    let host_open = match &p.host {
        Some(h) => same_text(h.as_str(), "open"),
        None => false,
    };
    let path_ok = chars_of(p.path.as_str()).len() == 0 || same_text(p.path.as_str(), "/");
    let trusted = same_text(p.scheme.as_str(), "archigoat") && host_open && path_ok;
    if !trusted || p.fragment.is_some() || chars_of(p.username.as_str()).len() != 0
        || p.password.is_some() || p.port.is_some() {
        return None;
    }
    if p.query.len() != 1 {
        return None;
    }
    let (name, token) = &p.query[0];
    if !same_text(name.as_str(), "token") || !valid_token(token.as_str()) {
        return None;
    }
    Some(token.clone())
}

/// HandoffToken reads the one-time token of a trusted deep link.
pub fn handoff_token(value: &str) -> (r: Option<String>)
    ensures
        crate::evidence::opt_text(r) == handoff_of(url_parts(value@)),
{
    handoff_token_from(parse_url(value))
}

/// TrustedHandoff keeps a deep link only when it carries exactly one valid handoff token.
pub fn trusted_handoff(value: &str) -> (r: Option<String>)
    ensures
        crate::evidence::opt_text(r) == (if handoff_of(url_parts(value@)) is Some {
            Some(value@)
        } else {
            None::<Seq<char>>
        }),
{
    match handoff_token(value) {
        Some(_) => Some(value.to_string()),
        None => None,
    }
}

/// The URL the standard makes of `origin` with its path, query and fragment replaced.
pub uninterp spec fn url_with(origin: Seq<char>, path: Seq<char>, query: Seq<char>) -> Option<
    Seq<char>,
>;

/// Calls `url::Url::parse` on `origin`, then `set_path`, `set_query` and `set_fragment(None)`,
/// and serializes the URL. The contract only names the result.
#[verifier::external_body]
fn replace_url_parts(origin: &str, path: &str, query: &str) -> (r: Option<String>)
    ensures
        crate::evidence::opt_text(r) == url_with(origin@, path@, query@),
{
    let mut url = url::Url::parse(origin).ok()?;
    url.set_path(path);
    url.set_query(Some(query));
    url.set_fragment(None);
    Some(url.into())
}

/// The page of an Account origin that asks the creator to authorize this App.
pub open spec fn authorization_of(origin: Seq<char>) -> Result<Seq<char>, Seq<char>> {
    match url_with(origin, "/"@, "authorize=archigoat"@) {
        Some(u) => Ok(u),
        None => Err("TrianGoat URL is invalid"@),
    }
}

/// AccountAuthorizationUrl names the Account page that authorizes this App.
pub fn account_authorization_url(origin: &str) -> (r: Result<String, String>)
    ensures
        match authorization_of(origin@) {
            Ok(u) => r matches Ok(s) && s@ == u,
            Err(e) => r matches Err(m) && m@ == e,
        },
{
    match replace_url_parts(origin, "/", "authorize=archigoat") {
        Some(u) => Ok(u),
        None => Err("TrianGoat URL is invalid".to_owned()),
    }
}

/// The launch error a relaunch handed over: the first `--start-error=` argument, unless empty.
pub open spec fn start_error_of(args: Seq<Seq<char>>) -> Option<Seq<char>>
    decreases args.len(),
{
    if args.len() == 0 {
        None
    } else if starts_with(args[0], "--start-error="@) {
        let message = args[0].subrange(14, args[0].len() as int);
        if message.len() == 0 {
            None
        } else {
            Some(message)
        }
    } else {
        start_error_of(args.drop_first())
    }
}

/// StartError reads the launch error a relaunch handed over in its arguments.
pub fn start_error_from(args: &Vec<String>) -> (r: Option<String>)
    ensures
        crate::evidence::opt_text(r) == start_error_of(args@.map_values(|a: String| a@)),
{
    let ghost all = args@.map_values(|a: String| a@);
    proof {
        assert(all.skip(0) =~= all);
    }
    let mut i: usize = 0;
    while i < args.len()
        invariant
            i <= args@.len(),
            all == args@.map_values(|a: String| a@),
            start_error_of(all) == start_error_of(all.skip(i as int)),
        decreases args.len() - i,
    {
        let ghost rest = all.skip(i as int);
        proof {
            reveal_strlit("--start-error=");
            assert(rest[0] == args@[i as int]@);
            assert(rest.drop_first() =~= all.skip(i + 1));
        }
        if has_prefix(args[i].as_str(), "--start-error=") {
            let v = chars_of(args[i].as_str());
            if v.len() == 14 {
                return None;
            }
            return Some(slice_text(&v, 14, v.len()));
        }
        i = i + 1;
    }
    None
}

/// A request or response body crossing the shell is never larger than this.
pub const MAX_ACCOUNT_BODY: usize = 67108864;

/// Where the shell reaches the local daemon.
pub open spec fn loopback_url() -> Seq<char> {
    "http://127.0.0.1:17891"@
}

/// The request the shell sends on a page's behalf.
pub struct Outbound {
    pub method: String,
    pub url: String,
    pub headers: Vec<(String, String)>,
}

pub open spec fn pair_views(h: Seq<(String, String)>) -> Seq<(Seq<char>, Seq<char>)> {
    h.map_values(|p: (String, String)| (p.0@, p.1@))
}

/// Whether some header a page named may not cross to Account.
pub open spec fn account_header_refused(headers: Seq<(Seq<char>, Seq<char>)>) -> bool {
    exists|i: int|
        0 <= i < headers.len() && (!account_headers().contains(lower_text(#[trigger] headers[i].0))
            || lower_text(headers[i].0) == "origin"@)
}

/// Why an Account request may not leave the shell, checked in this order, or `None`.
pub open spec fn account_refusal(
    method: Seq<char>,
    path: Seq<char>,
    headers: Seq<(Seq<char>, Seq<char>)>,
    body: nat,
) -> Option<Seq<char>> {
    if !account_route_allowed(crate::egress::upper_text(method), path) {
        Some("Account route is not allowed"@)
    } else if body > MAX_ACCOUNT_BODY {
        Some("Account request is too large"@)
    } else if account_header_refused(headers) {
        Some("Account header is not allowed"@)
    } else {
        None
    }
}

fn refuses_account_header(headers: &Vec<(String, String)>) -> (r: bool)
    ensures
        r == account_header_refused(pair_views(headers@)),
{
    let ghost hv = pair_views(headers@);
    let mut i: usize = 0;
    while i < headers.len()
        invariant
            hv == pair_views(headers@),
            i <= headers@.len(),
            forall|k: int| 0 <= k < i ==> !(!account_headers().contains(lower_text(#[trigger] hv[k].0))
                || lower_text(hv[k].0) == "origin"@),
        decreases headers.len() - i,
    {
        let lower = crate::text::string_of(lower_chars(headers[i].0.as_str()).as_slice());
        assert(hv[i as int].0 == headers@[i as int].0@);
        if !allowed_header(headers[i].0.as_str()) || same_text(lower.as_str(), "origin") {
            return true;
        }
        i = i + 1;
    }
    false
}

/// AccountOutbound admits one page request to Account only on a named route, within the body
/// bound and with named headers; the request keeps the page's headers and body as they are.
pub fn account_outbound(
    base: &str,
    method: &str,
    path: &str,
    headers: Vec<(String, String)>,
    body_len: usize,
) -> (r: Result<Outbound, String>)
    ensures
        match account_refusal(method@, path@, pair_views(headers@), body_len as nat) {
            Some(e) => r matches Err(m) && m@ == e,
            None => r matches Ok(o) && o.method@ == crate::egress::upper_text(method@) && o.url@
                == base@ + path@ && pair_views(o.headers@) == pair_views(headers@),
        },
{
    let upper = crate::text::string_of(crate::egress::upper_chars(method).as_slice());
    if !allowed_path(upper.as_str(), path) {
        return Err("Account route is not allowed".to_string());
    }
    if body_len > MAX_ACCOUNT_BODY {
        return Err("Account request is too large".to_string());
    }
    if refuses_account_header(&headers) {
        return Err("Account header is not allowed".to_string());
    }
    let mut url: Vec<char> = Vec::new();
    push_text(&mut url, base);
    push_text(&mut url, path);
    Ok(Outbound { method: upper, url: crate::text::string_of(url.as_slice()), headers })
}

pub open spec fn loopback_header_refused(headers: Seq<(Seq<char>, Seq<char>)>) -> bool {
    exists|i: int|
        0 <= i < headers.len() && !loopback_headers().contains(lower_text(#[trigger] headers[i].0))
}

/// Why a daemon request may not leave the shell, checked in this order, or `None`.
pub open spec fn loopback_refusal(
    method: Seq<char>,
    path: Seq<char>,
    headers: Seq<(Seq<char>, Seq<char>)>,
    body: nat,
    authenticated: bool,
    voucher: Option<Seq<char>>,
) -> Option<Seq<char>> {
    if !loopback_route_allowed(crate::egress::upper_text(method), path) {
        Some("Loopback route is not allowed"@)
    } else if body > MAX_ACCOUNT_BODY {
        Some("Loopback request is too large"@)
    } else if authenticated && !(voucher matches Some(v) && voucher_text(v)) {
        Some("Loopback voucher is invalid"@)
    } else if loopback_header_refused(headers) {
        Some("Loopback header is not allowed"@)
    } else {
        None
    }
}

/// The headers a daemon request carries: an authenticated one first presents its voucher and
/// the protocol it speaks.
pub open spec fn loopback_headers_sent(
    headers: Seq<(Seq<char>, Seq<char>)>,
    authenticated: bool,
    voucher: Seq<char>,
) -> Seq<(Seq<char>, Seq<char>)> {
    if authenticated {
        seq![("Authorization"@, "Bearer "@ + voucher), ("x-app-protocol"@, "15"@)] + headers
    } else {
        headers
    }
}

fn refuses_loopback_header(headers: &Vec<(String, String)>) -> (r: bool)
    ensures
        r == loopback_header_refused(pair_views(headers@)),
{
    let ghost hv = pair_views(headers@);
    let mut i: usize = 0;
    while i < headers.len()
        invariant
            hv == pair_views(headers@),
            i <= headers@.len(),
            forall|k: int| 0 <= k < i ==> loopback_headers().contains(lower_text(#[trigger] hv[k].0)),
        decreases headers.len() - i,
    {
        assert(hv[i as int].0 == headers@[i as int].0@);
        if !allowed_loopback_header(headers[i].0.as_str()) {
            return true;
        }
        i = i + 1;
    }
    false
}

/// LoopbackOutbound admits one page request to the local daemon only on a named route, within
/// the body bound, with a well-formed voucher when it is authenticated, and with named headers.
pub fn loopback_outbound(
    method: &str,
    path: &str,
    headers: Vec<(String, String)>,
    body_len: usize,
    authenticated: bool,
    voucher: Option<String>,
) -> (r: Result<Outbound, String>)
    ensures
        match loopback_refusal(
            method@,
            path@,
            pair_views(headers@),
            body_len as nat,
            authenticated,
            crate::evidence::opt_text(voucher),
        ) {
            Some(e) => r matches Err(m) && m@ == e,
            None => r matches Ok(o) && o.method@ == crate::egress::upper_text(method@) && o.url@
                == loopback_url() + path@ && pair_views(o.headers@) == loopback_headers_sent(
                pair_views(headers@),
                authenticated,
                match voucher {
                    Some(v) => v@,
                    None => Seq::empty(),
                },
            ),
        },
{
    let upper = crate::text::string_of(crate::egress::upper_chars(method).as_slice());
    if !allowed_loopback_path(upper.as_str(), path) {
        return Err("Loopback route is not allowed".to_string());
    }
    if body_len > MAX_ACCOUNT_BODY {
        return Err("Loopback request is too large".to_string());
    }
    let vouched = match &voucher {
        Some(v) => valid_voucher(v.as_str()),
        None => false,
    };
    if authenticated && !vouched {
        return Err("Loopback voucher is invalid".to_string());
    }
    if refuses_loopback_header(&headers) {
        return Err("Loopback header is not allowed".to_string());
    }
    let mut url: Vec<char> = Vec::new();
    push_text(&mut url, "http://127.0.0.1:17891");
    push_text(&mut url, path);
    let mut sent: Vec<(String, String)> = Vec::new();
    if authenticated {
        let mut bearer: Vec<char> = Vec::new();
        push_text(&mut bearer, "Bearer ");
        match &voucher {
            Some(v) => push_text(&mut bearer, v.as_str()),
            None => {},
        }
        sent.push(("Authorization".to_string(), crate::text::string_of(bearer.as_slice())));
        sent.push(("x-app-protocol".to_string(), "15".to_string()));
    }
    let ghost prefix = pair_views(sent@);
    let mut i: usize = 0;
    while i < headers.len()
        invariant
            i <= headers@.len(),
            pair_views(sent@) == prefix + pair_views(headers@).take(i as int),
        decreases headers.len() - i,
    {
        let name = headers[i].0.clone();
        let value = headers[i].1.clone();
        assert(name@ == headers@[i as int].0@ && value@ == headers@[i as int].1@);
        let ghost before = sent@;
        sent.push((name, value));
        proof {
            assert(pair_views(sent@) =~= pair_views(before).push((headers@[i as int].0@, headers@[i as int].1@)));
            assert(pair_views(headers@).take(i + 1) =~= pair_views(headers@).take(i as int).push(
                (headers@[i as int].0@, headers@[i as int].1@),
            ));
            assert(pair_views(sent@) =~= prefix + pair_views(headers@).take(i + 1));
        }
        i = i + 1;
    }
    proof {
        assert(pair_views(headers@).take(headers@.len() as int) =~= pair_views(headers@));
        if authenticated {
            assert(prefix =~= seq![
                ("Authorization"@, "Bearer "@ + match voucher {
                    Some(v) => v@,
                    None => Seq::empty(),
                }),
                ("x-app-protocol"@, "15"@),
            ]);
        } else {
            assert(prefix =~= Seq::<(Seq<char>, Seq<char>)>::empty());
        }
    }
    Ok(Outbound { method: upper, url: crate::text::string_of(url.as_slice()), headers: sent })
}

pub open spec fn too_large_text() -> Seq<char> {
    "Native response is too large"@
}

/// BoundedBody reads one response body without ever holding more than the shell's bound.
pub struct BoundedBody {
    bytes: Vec<u8>,
}

impl BoundedBody {
    pub closed spec fn held(&self) -> Seq<u8> {
        self.bytes@
    }

    /// Open refuses a body whose declared length already passes the bound.
    pub fn open(declared: Option<u64>) -> (r: Result<Self, String>)
        ensures
            (declared matches Some(n) && n > MAX_ACCOUNT_BODY) ==> (r matches Err(e) && e@
                == too_large_text()),
            !(declared matches Some(n) && n > MAX_ACCOUNT_BODY) ==> (r matches Ok(b) && b.held()
                == Seq::<u8>::empty()),
    {
        match declared {
            Some(n) => if n > MAX_ACCOUNT_BODY as u64 {
                return Err("Native response is too large".to_string());
            },
            None => {},
        }
        Ok(BoundedBody { bytes: Vec::new() })
    }

    /// Absorb adds one chunk, or refuses the body once it would pass the bound.
    pub fn absorb(&mut self, chunk: &[u8]) -> (r: Result<(), String>)
        ensures
            old(self).held().len() + chunk@.len() > MAX_ACCOUNT_BODY ==> (r matches Err(e) && e@
                == too_large_text()) && final(self).held() == old(self).held(),
            old(self).held().len() + chunk@.len() <= MAX_ACCOUNT_BODY ==> r is Ok
                && final(self).held() == old(self).held() + chunk@,
    {
        if chunk.len() > MAX_ACCOUNT_BODY || self.bytes.len() > MAX_ACCOUNT_BODY - chunk.len() {
            return Err("Native response is too large".to_string());
        }
        let ghost before = self.bytes@;
        let mut i: usize = 0;
        while i < chunk.len()
            invariant
                i <= chunk@.len(),
                self.bytes@ == before + chunk@.take(i as int),
            decreases chunk.len() - i,
        {
            self.bytes.push(chunk[i]);
            proof {
                assert(chunk@.take(i + 1) =~= chunk@.take(i as int).push(chunk@[i as int]));
            }
            i = i + 1;
        }
        proof {
            assert(chunk@.take(chunk@.len() as int) =~= chunk@);
        }
        Ok(())
    }

    pub fn finish(self) -> (r: Vec<u8>)
        ensures
            r@ == self.held(),
    {
        self.bytes
    }
}

/// The body that forwards one handoff token to the daemon.
pub open spec fn handoff_body_text(token: Seq<char>) -> Seq<char> {
    "{\"token\":\""@ + token + "\"}"@
}

/// HandoffBody forwards a deep link's token to the daemon, only when the link is trusted.
pub fn handoff_body(url: &str) -> (r: Result<String, String>)
    ensures
        match handoff_of(url_parts(url@)) {
            Some(t) => r matches Ok(b) && b@ == handoff_body_text(t),
            None => r matches Err(e) && e@ == "Handoff URL is not trusted"@,
        },
{
    let token = match handoff_token(url) {
        Some(t) => t,
        None => return Err("Handoff URL is not trusted".to_string()),
    };
    let mut out: Vec<char> = Vec::new();
    push_text(&mut out, "{\"token\":\"");
    push_text(&mut out, token.as_str());
    push_text(&mut out, "\"}");
    Ok(crate::text::string_of(out.as_slice()))
}

/// The failure a refused handoff reports: its status, and the daemon's own words when it gave any.
pub open spec fn handoff_failure_text(status: Seq<char>, reason: Seq<char>) -> Seq<char> {
    if crate::text::trimmed(reason).len() == 0 {
        "Daemon handoff failed ("@ + status + ")"@
    } else {
        "Daemon handoff failed ("@ + status + "): "@ + crate::text::trimmed(reason)
    }
}

/// HandoffFailure words a daemon refusal; `status` is the response status as the HTTP client
/// writes it.
pub fn handoff_failure(status: &str, reason: &str) -> (r: String)
    ensures
        r@ == handoff_failure_text(status@, reason@),
{
    let trimmed = crate::text::trim(reason);
    let mut out: Vec<char> = Vec::new();
    push_text(&mut out, "Daemon handoff failed (");
    push_text(&mut out, status);
    if chars_of(trimmed.as_str()).len() == 0 {
        push_text(&mut out, ")");
    } else {
        push_text(&mut out, "): ");
        push_text(&mut out, trimmed.as_str());
    }
    crate::text::string_of(out.as_slice())
}

/// The session a successful handoff returns is accepted only in the token shape.
pub fn handoff_session(access_token: String) -> (r: Result<String, String>)
    ensures
        token_text(access_token@) ==> (r matches Ok(t) && t@ == access_token@),
        !token_text(access_token@) ==> (r matches Err(e) && e@ == "Daemon handoff response is invalid"@),
{
    if valid_token(access_token.as_str()) {
        Ok(access_token)
    } else {
        Err("Daemon handoff response is invalid".to_string())
    }
}

} // verus!
