//! Drive decides, between native turns, how long to pause and what the next turn continues.
//!
//! Durations are whole milliseconds.

use vstd::prelude::*;

verus! {

/// The first pause of a retry.
pub const RETRY_MS: u64 = 250;
/// A persistent machine fault is retried at most this far apart.
pub const MAX_RETRY_MS: u64 = 30000;
/// A replacement runner never waits longer than this: the cooldown exists only so a runner that
/// dies the instant it launches cannot relaunch in a hot loop.
pub const MAX_COOLDOWN_MS: u64 = 2000;

/// The retry pause after `retry`: doubled, never past the cap.
pub open spec fn backoff_after(retry: u64) -> u64 {
    if 2 * retry < MAX_RETRY_MS {
        (2 * retry) as u64
    } else {
        MAX_RETRY_MS
    }
}

/// Backoff keeps persistent machine faults recoverable without hot or fixed-rate polling.
pub fn backoff(retry: u64) -> (r: u64)
    ensures
        r == backoff_after(retry),
{
    if retry < MAX_RETRY_MS / 2 {
        retry * 2
    } else {
        MAX_RETRY_MS
    }
}

/// The cooldown the next replacement runner inherits.
pub open spec fn cooldown_after(cooldown: Option<u64>) -> u64 {
    match cooldown {
        None => RETRY_MS,
        Some(pause) => if 2 * pause < MAX_COOLDOWN_MS {
            (2 * pause) as u64
        } else {
            MAX_COOLDOWN_MS
        },
    }
}

/// What the driver does before launching the next runner generation: pause this long (if at
/// all), and carry this cooldown forward.
pub open spec fn relaunch_plan(
    rotating: bool,
    previous_steer: Option<Seq<char>>,
    next_steer: Option<Seq<char>>,
    cooldown: Option<u64>,
) -> (Option<u64>, Option<u64>) {
    if rotating || previous_steer != next_steer {
        (None, None)
    } else {
        (cooldown, Some(cooldown_after(cooldown)))
    }
}

/// RelaunchPlan: a runner already proven dead is replaced with no pause at all; only a generation
/// that already relaunched once pauses, and never past the anti-hot-loop cap. A new follow-up, or
/// the end of a rotation, starts the schedule over.
pub fn relaunch_plan_for(
    rotating: bool,
    previous_steer: Option<&str>,
    next_steer: Option<&str>,
    cooldown: Option<u64>,
) -> (r: (Option<u64>, Option<u64>))
    ensures
        r == relaunch_plan(
            rotating,
            match previous_steer {
                Some(s) => Some(s@),
                None => None,
            },
            match next_steer {
                Some(s) => Some(s@),
                None => None,
            },
            cooldown,
        ),
{
    let same = match (previous_steer, next_steer) {
        (Some(a), Some(b)) => crate::text::same_text(a, b),
        (None, None) => true,
        _ => false,
    };
    if rotating || !same {
        return (None, None);
    }
    let next = match cooldown {
        None => RETRY_MS,
        Some(pause) => if pause < MAX_COOLDOWN_MS / 2 {
            pause * 2
        } else {
            MAX_COOLDOWN_MS
        },
    };
    (cooldown, Some(next))
}

/// The retry after a journal error: a journal that advanced since the last error starts over.
pub open spec fn error_retry(sequence: u64, last_error: u64, retry: u64) -> (u64, u64) {
    if sequence > last_error {
        (RETRY_MS, sequence)
    } else {
        (backoff_after(retry), last_error)
    }
}

/// ErrorRetry: capped backoff prevents a persistent journal defect from consuming the machine.
pub fn error_retry_for(sequence: u64, last_error: u64, retry: u64) -> (r: (u64, u64))
    ensures
        r == error_retry(sequence, last_error, retry),
{
    if sequence > last_error {
        (RETRY_MS, sequence)
    } else {
        (backoff(retry), last_error)
    }
}

/// How a dead turn is answered: a bound native session is repaired; a death before any session
/// was named asks the creator instead of looping.
pub open spec fn repairs_session(native_session: Seq<char>) -> bool {
    native_session.len() != 0
}

pub fn repairs_session_for(native_session: &str) -> (r: bool)
    ensures
        r == repairs_session(native_session@),
{
    crate::text::chars_of(native_session).len() != 0
}

/// The pauses of consecutive relaunches of one unchanged generation, starting cold.
pub open spec fn pause_schedule(n: nat) -> Option<u64>
    decreases n,
{
    if n == 0 {
        None
    } else {
        Some(cooldown_after(pause_schedule((n - 1) as nat)))
    }
}

/// A replacement runner is never held back past the anti-hot-loop cap, and the first one is not
/// held back at all.
pub proof fn cooldown_bounded(n: nat)
    ensures
        pause_schedule(0) is None,
        pause_schedule(n) matches Some(p) ==> RETRY_MS <= p <= MAX_COOLDOWN_MS,
    decreases n,
{
    if n > 0 {
        cooldown_bounded((n - 1) as nat);
    }
}

/// The cooldown doubles from a quarter second until it reaches two seconds.
pub proof fn cooldown_schedule()
    ensures
        pause_schedule(1) == Some(250u64),
        pause_schedule(2) == Some(500u64),
        pause_schedule(3) == Some(1000u64),
        pause_schedule(4) == Some(2000u64),
        pause_schedule(5) == Some(2000u64),
{
    reveal_with_fuel(pause_schedule, 6);
}

/// Backoff never shrinks a pause below where it was, and never grows it past the cap.
pub proof fn backoff_bounded(retry: u64)
    requires
        retry <= MAX_RETRY_MS,
    ensures
        retry <= backoff_after(retry) <= MAX_RETRY_MS,
{
}

} // verus!
