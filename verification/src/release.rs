//! A downloaded App replaces the installed one only when it is newer or a different build.

use vstd::prelude::*;
use crate::number::{decimal, parse_u64};
use crate::preview::{split_text, split_on, texts_of};

verus! {

/// One installed or downloaded build: its three-part version and its commit.
pub struct Release {
    pub version: (u64, u64, u64),
    pub commit: String,
}

/// Versions compare part by part, most significant first.
pub open spec fn version_less(a: (u64, u64, u64), b: (u64, u64, u64)) -> bool {
    a.0 < b.0 || (a.0 == b.0 && (a.1 < b.1 || (a.1 == b.1 && a.2 < b.2)))
}

/// Whether a downloaded build replaces the installed one.
pub open spec fn replaces(candidate: (u64, u64, u64), commit: Seq<char>, installed: Option<((u64, u64, u64), Seq<char>)>) -> bool {
    match installed {
        None => true,
        Some((version, current)) => version_less(version, candidate) || (candidate == version
            && commit != current),
    }
}

/// ShouldReplace installs a newer version, or the same version from another commit.
pub fn should_replace(candidate: &Release, installed: Option<&Release>) -> (r: bool)
    ensures
        r == replaces(
            candidate.version,
            candidate.commit@,
            match installed {
                Some(c) => Some((c.version, c.commit@)),
                None => None,
            },
        ),
{
    match installed {
        None => true,
        Some(current) => {
            let (a0, a1, a2) = candidate.version;
            let (b0, b1, b2) = current.version;
            let newer = b0 < a0 || (b0 == a0 && (b1 < a1 || (b1 == a1 && b2 < a2)));
            newer || (a0 == b0 && a1 == b1 && a2 == b2 && !crate::text::same_text(
                candidate.commit.as_str(),
                current.commit.as_str(),
            ))
        },
    }
}

/// The version a bundle's short version string names: exactly three dot-separated numbers.
pub open spec fn version_of(text: Seq<char>) -> Option<(u64, u64, u64)> {
    let parts = split_on(text, '.');
    if parts.len() != 3 {
        None
    } else {
        match (decimal(parts[0]), decimal(parts[1]), decimal(parts[2])) {
            (Some(a), Some(b), Some(c)) => if a <= u64::MAX && b <= u64::MAX && c <= u64::MAX {
                Some((a as u64, b as u64, c as u64))
            } else {
                None
            },
            _ => None,
        }
    }
}

/// ParseVersion reads a bundle's three-part version.
pub fn parse_version(text: &str) -> (r: Option<(u64, u64, u64)>)
    ensures
        r == version_of(text@),
{
    let parts = split_text(text, '.');
    if parts.len() != 3 {
        return None;
    }
    let ghost views = texts_of(parts@);
    assert(views[0] == parts@[0]@ && views[1] == parts@[1]@ && views[2] == parts@[2]@);
    let a = parse_u64(parts[0].as_str());
    let b = parse_u64(parts[1].as_str());
    let c = parse_u64(parts[2].as_str());
    match (a, b, c) {
        (Some(a), Some(b), Some(c)) => Some((a, b, c)),
        _ => None,
    }
}

/// ReadRelease: a bundle's build, when its version parses and it names a commit.
pub fn release_from(version: &str, commit: String) -> (r: Option<Release>)
    ensures
        match r {
            Some(rel) => version_of(version@) == Some(rel.version) && rel.commit@ == commit@
                && commit@.len() != 0,
            None => version_of(version@) is None || commit@.len() == 0,
        },
{
    let parsed = match parse_version(version) {
        Some(v) => v,
        None => return None,
    };
    if crate::text::chars_of(commit.as_str()).len() == 0 {
        return None;
    }
    Some(Release { version: parsed, commit })
}

/// A build never replaces itself, and of two different builds at most one replaces the other
/// unless they share a version.
pub proof fn replace_law(a: (u64, u64, u64), ca: Seq<char>, b: (u64, u64, u64), cb: Seq<char>)
    ensures
        !replaces(a, ca, Some((a, ca))),
        a != b ==> !(replaces(a, ca, Some((b, cb))) && replaces(b, cb, Some((a, ca)))),
{
}

/// Versions order as (major, minor, patch), most significant first: a higher major replaces
/// whatever its minor and patch, a lower major never does, and only an equal major lets the
/// minor decide, then the patch; an equal version replaces only from another commit.
pub proof fn newer_versions_replace(a: (u64, u64, u64), ca: Seq<char>, b: (u64, u64, u64), cb: Seq<char>)
    ensures
        a.0 > b.0 ==> replaces(a, ca, Some((b, cb))),
        a.0 < b.0 ==> !replaces(a, ca, Some((b, cb))),
        a.0 == b.0 && a.1 > b.1 ==> replaces(a, ca, Some((b, cb))),
        a.0 == b.0 && a.1 < b.1 ==> !replaces(a, ca, Some((b, cb))),
        a.0 == b.0 && a.1 == b.1 && a.2 > b.2 ==> replaces(a, ca, Some((b, cb))),
        a.0 == b.0 && a.1 == b.1 && a.2 < b.2 ==> !replaces(a, ca, Some((b, cb))),
        a == b ==> (replaces(a, ca, Some((b, cb))) <==> ca != cb),
        replaces(a, ca, None),
{
}

/// Whether one health probe found the daemon serving: the probe succeeded and answered exactly
/// `200`.
pub open spec fn healthy_probe(success: bool, stdout: Seq<u8>) -> bool {
    success && stdout == seq![50u8, 48u8, 48u8]
}

pub fn probe_healthy(success: bool, stdout: &[u8]) -> (r: bool)
    ensures
        r == healthy_probe(success, stdout@),
{
    if !success || stdout.len() != 3 {
        return false;
    }
    let r = stdout[0] == 50 && stdout[1] == 48 && stdout[2] == 48;
    proof {
        if r {
            assert(stdout@ =~= seq![50u8, 48u8, 48u8]);
        }
    }
    r
}

/// What a failed health probe reports: the HTTP status it read and the probe's own diagnostic,
/// whichever it has; with neither, how the probe exited.
pub open spec fn probe_detail_text(status: Seq<char>, stderr: Seq<char>, exit: Seq<char>) -> Seq<char> {
    let s = crate::text::trimmed(status);
    let e = crate::text::trimmed(stderr);
    if s.len() == 0 {
        if e.len() == 0 {
            "curl exited with "@ + exit
        } else {
            e
        }
    } else if e.len() == 0 {
        "HTTP "@ + s
    } else {
        "HTTP "@ + s + ": "@ + e
    }
}

/// ProbeDetail words one failed probe; `exit` is the probe's exit status as the system writes it.
pub fn probe_detail(status: &str, stderr: &str, exit: &str) -> (r: String)
    ensures
        r@ == probe_detail_text(status@, stderr@, exit@),
{
    let s = crate::text::trim(status);
    let e = crate::text::trim(stderr);
    let mut out: Vec<char> = Vec::new();
    if crate::text::chars_of(s.as_str()).len() == 0 {
        if crate::text::chars_of(e.as_str()).len() == 0 {
            crate::text::push_text(&mut out, "curl exited with ");
            crate::text::push_text(&mut out, exit);
        } else {
            crate::text::push_text(&mut out, e.as_str());
        }
    } else {
        crate::text::push_text(&mut out, "HTTP ");
        crate::text::push_text(&mut out, s.as_str());
        if crate::text::chars_of(e.as_str()).len() != 0 {
            crate::text::push_text(&mut out, ": ");
            crate::text::push_text(&mut out, e.as_str());
        }
    }
    crate::text::string_of(out.as_slice())
}

} // verus!
