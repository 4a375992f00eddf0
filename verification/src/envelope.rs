//! One launch delivers exactly one envelope, and the user's own words outrank every daemon continuation.

use vstd::prelude::*;

verus! {

/// Repair continues the same native session; the model is never handed an action to invent.
pub open spec fn repair_continuation_text() -> Seq<char> {
    "Continue this session from where the previous turn ended."@
}

/// The continuation every repair launch carries.
pub fn repair_continuation() -> (r: &'static str)
    ensures
        r@ == repair_continuation_text(),
{
    "Continue this session from where the previous turn ended."
}

/// Delivery is the exact bytes one launch carries plus the two facts that launch needs about them.
pub struct Delivery<'a> {
    /// Envelope is what the native session receives on this launch.
    pub envelope: &'a str,
    /// Resume proves this launch continues the bound native session instead of opening one.
    pub resume: bool,
    /// Request is true only for a stored JSON envelope, the one shape carrying staged attachment paths.
    pub request: bool,
}

/// What one launch carries: its envelope, whether it resumes, and whether it is a stored request.
pub open spec fn delivery_of(
    original: Seq<char>,
    steer: Option<Seq<char>>,
    delivered: bool,
    repair: bool,
    resume: bool,
) -> (Seq<char>, bool, bool) {
    match steer {
        Some(s) => if repair && delivered {
            (repair_continuation_text(), true, false)
        } else {
            (s, true, true)
        },
        None => if repair {
            (repair_continuation_text(), true, false)
        } else {
            (original, resume, true)
        },
    }
}

/// Select returns the exact bytes this launch delivers.
/// A queued follow-up outranks repair, so the user's message survives rotation until a launch
/// carries it. Once a launch has carried it, no later launch says it again: the Agent heard it,
/// and a replacement runner resumes the same conversation with a plain continuation.
pub fn select<'a>(
    original: &'a str,
    steer: Option<&'a str>,
    delivered: bool,
    repair: bool,
    resume: bool,
) -> (r: Delivery<'a>)
    ensures
        (r.envelope@, r.resume, r.request) == delivery_of(
            original@,
            match steer {
                Some(s) => Some(s@),
                None => None,
            },
            delivered,
            repair,
            resume,
        ),
{
    match steer {
        Some(s) => if repair && delivered {
            Delivery { envelope: repair_continuation(), resume: true, request: false }
        } else {
            Delivery { envelope: s, resume: true, request: true }
        },
        None => if repair {
            Delivery { envelope: repair_continuation(), resume: true, request: false }
        } else {
            Delivery { envelope: original, resume, request: true }
        },
    }
}

/// A follow-up no runner has heard yet is always delivered in the user's own words, resuming the
/// same session and carrying its staged attachments.
pub proof fn undelivered_steer_is_said(
    original: Seq<char>,
    steer: Seq<char>,
    repair: bool,
    resume: bool,
)
    ensures
        delivery_of(original, Some(steer), false, repair, resume) == (steer, true, true),
{
}

/// A follow-up is said once: a repair after the Agent heard it carries only the plain continuation.
pub proof fn delivered_steer_is_not_repeated(original: Seq<char>, steer: Seq<char>, resume: bool)
    ensures
        delivery_of(original, Some(steer), true, true, resume) == (
            repair_continuation_text(),
            true,
            false,
        ),
{
}

/// Every repair resumes the bound native session and never replays the creator's request.
pub proof fn repair_always_resumes(
    original: Seq<char>,
    steer: Option<Seq<char>>,
    delivered: bool,
    resume: bool,
)
    ensures
        delivery_of(original, steer, delivered, true, resume).1,
        delivery_of(original, steer, delivered, true, resume).0 == repair_continuation_text()
            || steer == Some(delivery_of(original, steer, delivered, true, resume).0),
{
}

/// A first turn with nothing queued delivers the creator's untouched request as a stored request.
pub proof fn first_turn_is_untouched(original: Seq<char>, resume: bool)
    ensures
        delivery_of(original, None, false, false, resume) == (original, resume, true),
{
}

/// Exactly the repair continuation is not a stored request: every other launch carries one.
pub proof fn request_unless_continuation(
    original: Seq<char>,
    steer: Option<Seq<char>>,
    delivered: bool,
    repair: bool,
    resume: bool,
)
    ensures
        delivery_of(original, steer, delivered, repair, resume).2 == !(repair && (steer is None
            || delivered)),
{
}

} // verus!
