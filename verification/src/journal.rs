//! The Work journal holds raw Provider lines as durable ordered frames without parsing content.
//!
//! A frame is its sequence (8 bytes, little-endian), its kind (1 byte), its payload length
//! (8 bytes, little-endian) and the payload.

use vstd::prelude::*;

verus! {

/// A Provider stdout line.
pub const STDOUT: u8 = 1;
/// A Provider stderr line, whose bytes are never kept.
pub const STDERR: u8 = 2;
/// The runner finished its turn.
pub const DONE: u8 = 3;
/// The runner ended without finishing; with a payload it reports a stalled command instead.
pub const STOPPED: u8 = 4;
/// The kind a previous generation of the runner used for a Work that did not complete.
pub const LEGACY_STOPPED: u8 = 5;
/// The bytes before each payload.
pub const HEADER: usize = 17;

/// One event a runner journaled.
pub enum AgentEvent {
    Stdout(Vec<u8>),
    Stderr,
    Done,
    Stopped,
    Stalled,
}

pub enum EventView {
    Stdout(Seq<u8>),
    Stderr,
    Done,
    Stopped,
    Stalled,
}

impl View for AgentEvent {
    type V = EventView;

    open spec fn view(&self) -> EventView {
        match self {
            AgentEvent::Stdout(b) => EventView::Stdout(b@),
            AgentEvent::Stderr => EventView::Stderr,
            AgentEvent::Done => EventView::Done,
            AgentEvent::Stopped => EventView::Stopped,
            AgentEvent::Stalled => EventView::Stalled,
        }
    }
}

/// One ordered journal frame.
pub struct AgentFrame {
    pub sequence: u64,
    pub event: AgentEvent,
}

/// 256 to the power `n`.
pub open spec fn radix(n: nat) -> nat
    decreases n,
{
    if n == 0 {
        1
    } else {
        256 * radix((n - 1) as nat)
    }
}

/// The `n` low bytes of `x`, least significant first.
pub open spec fn le_bytes(x: nat, n: nat) -> Seq<u8>
    decreases n,
{
    if n == 0 {
        Seq::empty()
    } else {
        seq![(x % 256) as u8] + le_bytes(x / 256, (n - 1) as nat)
    }
}

/// The number little-endian bytes spell.
pub open spec fn le_value(s: Seq<u8>) -> nat
    decreases s.len(),
{
    if s.len() == 0 {
        0
    } else {
        s[0] as nat + 256 * le_value(s.drop_first())
    }
}

/// Reading back `n` little-endian bytes gives the number that was written, when it fits.
pub proof fn le_round_trip(x: nat, n: nat)
    requires
        x < radix(n),
    ensures
        le_bytes(x, n).len() == n,
        le_value(le_bytes(x, n)) == x,
    decreases n,
{
    if n > 0 {
        let q = x / 256;
        vstd::arithmetic::div_mod::lemma_fundamental_div_mod(x as int, 256);
        assert(q < radix((n - 1) as nat)) by (nonlinear_arith)
            requires
                x < 256 * radix((n - 1) as nat),
                q == x / 256,
        ;
        le_round_trip(q, (n - 1) as nat);
        assert(le_bytes(x, n).drop_first() =~= le_bytes(q, (n - 1) as nat));
    }
}

proof fn lemma_le_bound(s: Seq<u8>)
    ensures
        le_value(s) < radix(s.len()),
    decreases s.len(),
{
    if s.len() > 0 {
        lemma_le_bound(s.drop_first());
        let r = radix((s.len() - 1) as nat);
        let v = le_value(s.drop_first());
        assert(s[0] as nat + 256 * v < 256 * r) by (nonlinear_arith)
            requires
                v < r,
                s[0] < 256,
        ;
    }
}

proof fn lemma_radix_8()
    ensures
        radix(8) == 0x1_0000_0000_0000_0000,
{
    reveal_with_fuel(radix, 9);
}

/// The bytes one frame takes in the journal.
pub open spec fn frame_bytes(sequence: u64, kind: u8, payload: Seq<u8>) -> Seq<u8> {
    le_bytes(sequence as nat, 8) + seq![kind] + le_bytes(payload.len(), 8) + payload
}

/// The event one complete frame of a kind this daemon names carries, or `None` for a kind
/// (or kind and payload) it does not name.
pub open spec fn event_of(kind: u8, payload: Seq<u8>) -> Option<EventView> {
    if kind == STDOUT {
        Some(EventView::Stdout(payload))
    } else if kind == STDERR {
        Some(EventView::Stderr)
    } else if kind == DONE && payload.len() == 0 {
        Some(EventView::Done)
    } else if kind == STOPPED && payload.len() == 0 {
        Some(EventView::Stopped)
    } else if kind == STOPPED {
        Some(EventView::Stalled)
    } else if kind == LEGACY_STOPPED && payload.len() == 0 {
        Some(EventView::Stopped)
    } else {
        None
    }
}

/// The next complete frame a journal holds at `offset`, with the offset after it; frames of a
/// kind this daemon cannot name are skipped, and a partial or unaddressable frame reads as
/// nothing yet.
pub open spec fn next_frame(j: Seq<u8>, offset: nat) -> Option<(u64, EventView, nat)>
    decreases j.len() - offset,
{
    if j.len() < offset + HEADER {
        None
    } else {
        let o = offset as int;
        let sequence = le_value(j.subrange(o, o + 8));
        let kind = j[o + 8];
        let len = le_value(j.subrange(o + 9, o + 17));
        let end: nat = (offset + HEADER + len) as nat;
        if end > u64::MAX || j.len() < end || len > usize::MAX {
            None
        } else {
            let payload = j.subrange(offset + HEADER, end as int);
            match event_of(kind, payload) {
                Some(e) => Some((sequence as u64, e, end)),
                None => next_frame(j, end),
            }
        }
    }
}

/// Appends `n`... the eight little-endian bytes of `x`.
fn push_le(out: &mut Vec<u8>, x: u64)
    ensures
        final(out)@ == old(out)@ + le_bytes(x as nat, 8),
{
    let ghost start = out@;
    let mut rest = x;
    let mut k: usize = 0;
    while k < 8
        invariant
            k <= 8,
            out@ + le_bytes(rest as nat, (8 - k) as nat) == start + le_bytes(x as nat, 8),
        decreases 8 - k,
    {
        let ghost o0 = out@;
        let ghost r0 = rest;
        out.push((rest % 256) as u8);
        rest = rest / 256;
        proof {
            assert(le_bytes(r0 as nat, (8 - k) as nat) =~= seq![(r0 % 256) as u8] + le_bytes(
                rest as nat,
                (8 - k - 1) as nat,
            ));
            assert(out@ + le_bytes(rest as nat, (8 - k - 1) as nat) =~= o0 + le_bytes(
                r0 as nat,
                (8 - k) as nat,
            ));
        }
        k = k + 1;
    }
    assert(out@ + le_bytes(rest as nat, 0) =~= out@);
}

/// EncodeFrame gives the exact bytes one ordered event appends to the journal.
pub fn encode_frame(sequence: u64, kind: u8, bytes: &[u8]) -> (r: Vec<u8>)
    ensures
        r@ == frame_bytes(sequence, kind, bytes@),
{
    let mut out: Vec<u8> = Vec::new();
    push_le(&mut out, sequence);
    out.push(kind);
    push_le(&mut out, bytes.len() as u64);
    let ghost head = out@;
    let mut i: usize = 0;
    while i < bytes.len()
        invariant
            i <= bytes@.len(),
            out@ == head + bytes@.subrange(0, i as int),
        decreases bytes.len() - i,
    {
        out.push(bytes[i]);
        i = i + 1;
        assert(out@ =~= head + bytes@.subrange(0, i as int));
    }
    assert(bytes@.subrange(0, bytes@.len() as int) =~= bytes@);
    assert(out@ =~= frame_bytes(sequence, kind, bytes@));
    out
}

/// Reads eight little-endian bytes.
fn read_le(j: &[u8], at: usize) -> (r: u64)
    requires
        at + 8 <= j@.len(),
    ensures
        r as nat == le_value(j@.subrange(at as int, at + 8)),
{
    let mut acc: u64 = 0;
    let mut k: usize = 8;
    proof {
        assert(j@.subrange(at + 8, at + 8) =~= Seq::<u8>::empty());
    }
    while k > 0
        invariant
            k <= 8,
            at + 8 <= j@.len(),
            j@.len() == j.len(),
            acc as nat == le_value(j@.subrange(at + k, at + 8)),
            (acc as nat) < radix((8 - k) as nat),
        decreases k,
    {
        k = k - 1;
        let b = j[at + k];
        let ghost s = j@.subrange(at + k, at + 8);
        proof {
            assert(s.drop_first() =~= j@.subrange(at + k + 1, at + 8));
            assert(s[0] == b);
            assert(radix((8 - k) as nat) == 256 * radix((8 - k - 1) as nat));
            lemma_radix_8();
            assert(radix((8 - k) as nat) <= radix(8)) by {
                lemma_radix_mono((8 - k) as nat, 8);
            }
            assert(acc * 256 + b < 256 * radix((8 - k - 1) as nat)) by (nonlinear_arith)
                requires
                    acc < radix((8 - k - 1) as nat),
                    b < 256,
            ;
        }
        acc = acc * 256 + b as u64;
    }
    acc
}

/// ReadFrame returns the next complete event this daemon understands at `offset`, and the offset
/// after it, without exposing partial writes. A kind it cannot name is skipped past: a frame from
/// another generation of the runner is one lost frame, never an unreadable journal.
pub fn read_frame(j: &[u8], offset: usize) -> (r: Option<(AgentFrame, usize)>)
    ensures
        match next_frame(j@, offset as nat) {
            None => r is None,
            Some((sequence, event, end)) => r matches Some((f, n)) && f.sequence == sequence
                && f.event@ == event && n == end,
        },
{
    if offset > j.len() || j.len() - offset < HEADER {
        return None;
    }
    let mut at = offset;
    loop
        invariant
            j@.len() == j.len(),
            offset <= j@.len(),
            at <= j@.len(),
            next_frame(j@, at as nat) == next_frame(j@, offset as nat),
        decreases j@.len() - at,
    {
        if j.len() - at < HEADER {
            assert(next_frame(j@, at as nat) is None);
            return None;
        }
        let sequence = read_le(j, at);
        let kind = j[at + 8];
        let len = read_le(j, at + 9);
        proof {
            lemma_radix_8();
            lemma_le_bound(j@.subrange(at as int, at + 8));
        }
        let base: u64 = at as u64 + 17;
        if len > u64::MAX - base {
            return None;
        }
        let end: u64 = base + len;
        if (j.len() as u64) < end {
            assert(next_frame(j@, at as nat) is None);
            return None;
        }
        let end = end as usize;
        let mut payload: Vec<u8> = Vec::new();
        let mut i: usize = at + HEADER;
        while i < end
            invariant
                at + HEADER <= i <= end <= j@.len(),
                payload@ == j@.subrange(at + HEADER, i as int),
            decreases end - i,
        {
            payload.push(j[i]);
            i = i + 1;
            assert(payload@ =~= j@.subrange(at + HEADER, i as int));
        }
        let event = if kind == STDOUT {
            Some(AgentEvent::Stdout(payload))
        } else if kind == STDERR {
            Some(AgentEvent::Stderr)
        } else if kind == DONE && payload.len() == 0 {
            Some(AgentEvent::Done)
        } else if kind == STOPPED && payload.len() == 0 {
            Some(AgentEvent::Stopped)
        } else if kind == STOPPED {
            Some(AgentEvent::Stalled)
        } else if kind == LEGACY_STOPPED && payload.len() == 0 {
            Some(AgentEvent::Stopped)
        } else {
            None
        };
        match event {
            Some(e) => {
                return Some((AgentFrame { sequence, event: e }, end));
            },
            None => {
                at = end;
            },
        }
    }
}

/// A frame appended to any journal reads back as exactly the event that was written, ending
/// where the frame ends.
pub proof fn frame_round_trip(j: Seq<u8>, sequence: u64, kind: u8, payload: Seq<u8>)
    requires
        event_of(kind, payload) is Some,
        j.len() + HEADER + payload.len() <= u64::MAX,
        payload.len() <= usize::MAX,
    ensures
        next_frame(j + frame_bytes(sequence, kind, payload), j.len()) == Some(
            (sequence, event_of(kind, payload)->0, (j.len() + HEADER + payload.len()) as nat),
        ),
{
    let f = frame_bytes(sequence, kind, payload);
    let all = j + f;
    let o = j.len() as int;
    lemma_radix_8();
    le_round_trip(sequence as nat, 8);
    le_round_trip(payload.len(), 8);
    assert(all.subrange(o, o + 8) =~= le_bytes(sequence as nat, 8));
    assert(all[o + 8] == kind);
    assert(all.subrange(o + 9, o + 17) =~= le_bytes(payload.len(), 8));
    assert(all.subrange(o + 17, o + 17 + payload.len()) =~= payload);
}

/// A frame whose bytes have only partly reached the journal reads as nothing yet.
pub proof fn partial_frame_is_unread(j: Seq<u8>, sequence: u64, kind: u8, payload: Seq<u8>, cut: int)
    requires
        0 <= cut < HEADER + payload.len(),
        payload.len() <= usize::MAX,
    ensures
        next_frame(j + frame_bytes(sequence, kind, payload).take(cut), j.len()) is None,
{
    let f = frame_bytes(sequence, kind, payload);
    let all = j + f.take(cut);
    let o = j.len() as int;
    lemma_radix_8();
    le_round_trip(payload.len(), 8);
    le_round_trip(sequence as nat, 8);
    assert(f.len() == HEADER + payload.len());
    if cut >= HEADER {
        assert(f.subrange(9, 17) =~= le_bytes(payload.len(), 8));
        assert(all.subrange(o + 9, o + 17) =~= f.subrange(9, 17));
        assert(all.len() == o + cut);
    }
}

proof fn lemma_radix_mono(a: nat, b: nat)
    requires
        a <= b,
    ensures
        radix(a) <= radix(b),
    decreases b,
{
    if a < b {
        lemma_radix_mono(a, (b - 1) as nat);
    }
}

} // verus!
