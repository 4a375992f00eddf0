//! Observation of one durable Windows runner: where its journal has been read to, which terminal
//! fact it reached, and what the observer does when the journal is quiet.
//!
//! The observer reads frames, inspects the runner process and writes files; each of those results
//! is handed to the functions here, which decide the next observation state.

use vstd::prelude::*;

verus! {

/// What one observer knows of its runner's journal.
#[derive(Clone, Copy, PartialEq, Eq, Structural)]
pub struct Watch {
    /// The byte offset of the next unread frame.
    pub offset: usize,
    /// The sequence of the last frame read.
    pub cursor: u64,
    /// The sequence of the terminal fact read, once one was.
    pub terminal: Option<u64>,
    /// The owner's Stop was already forwarded to the runner.
    pub stop_sent: bool,
    /// The end written once on a dead runner's behalf.
    pub settled: Option<u64>,
}

/// A watch that has read nothing.
pub fn fresh_watch() -> (r: Watch)
    ensures
        r == (Watch { offset: 0, cursor: 0, terminal: None, stop_sent: false, settled: None }),
{
    Watch { offset: 0, cursor: 0, terminal: None, stop_sent: false, settled: None }
}

/// Whether the owner's Stop (or the end of this turn) must still be forwarded to the runner.
pub open spec fn stop_due(w: Watch, asked: bool) -> bool {
    asked && !w.stop_sent
}

/// StopDue: a Stop is forwarded once; once forwarded it is never written again.
pub fn forward_stop(w: Watch, asked: bool) -> (r: (bool, Watch))
    ensures
        r.0 == stop_due(w, asked),
        r.1 == (Watch { stop_sent: w.stop_sent || asked, ..w }),
{
    (asked && !w.stop_sent, Watch { stop_sent: w.stop_sent || asked, ..w })
}

/// The watch after one frame was read: the journal is read past it, and a terminal fact is kept.
pub open spec fn read_past(w: Watch, sequence: u64, terminal: bool, offset: usize) -> Watch {
    Watch {
        offset,
        cursor: sequence,
        terminal: if terminal {
            Some(sequence)
        } else {
            w.terminal
        },
        ..w
    }
}

/// How many frames were lost before a frame that does not follow the last one read.
pub open spec fn lost_before(w: Watch, sequence: u64) -> nat {
    if sequence > w.cursor + 1 {
        (sequence - w.cursor - 1) as nat
    } else {
        0
    }
}

/// FrameRead records one frame read at the next offset; `terminal` says whether it is a Done or
/// Stopped fact. The frames a torn append lost are counted, and the Work reads on.
pub fn frame_read(w: Watch, sequence: u64, terminal: bool, offset: usize) -> (r: (Watch, u64))
    ensures
        r.0 == read_past(w, sequence, terminal, offset),
        r.1 == lost_before(w, sequence),
{
    let lost = if w.cursor < sequence && sequence - w.cursor > 1 {
        sequence - w.cursor - 1
    } else {
        0
    };
    (
        Watch {
            offset,
            cursor: sequence,
            terminal: if terminal {
                Some(sequence)
            } else {
                w.terminal
            },
            ..w
        },
        lost,
    )
}

/// What a quiet journal leads to.
#[derive(Clone, Copy, PartialEq, Eq, Structural)]
pub enum Quiet {
    /// The runner is gone without a terminal fact: journal this end for it, once.
    WriteEnd(u64),
    /// Hand over the end written for the dead runner as its terminal Done.
    Settle(u64),
    /// The runner may still write: wait and read again.
    Wait,
}

pub open spec fn quiet_step(w: Watch, exited: bool) -> (Quiet, Watch) {
    if exited && w.settled is None {
        (Quiet::WriteEnd((w.cursor + 1) as u64), Watch { settled: Some((w.cursor + 1) as u64), ..w })
    } else if w.settled is Some && w.terminal is None {
        let s = w.settled->0;
        (Quiet::Settle(s), Watch { cursor: s, terminal: Some(s), ..w })
    } else {
        (Quiet::Wait, w)
    }
}

/// WhenQuiet: a runner with no durable terminal fact is only ever settled on its own proven death,
/// and the end written on its behalf is written a single time.
pub fn when_quiet(w: Watch, exited: bool) -> (r: (Quiet, Watch))
    requires
        w.cursor < u64::MAX,
    ensures
        r == quiet_step(w, exited),
{
    if exited && w.settled.is_none() {
        let s = w.cursor + 1;
        (Quiet::WriteEnd(s), Watch { settled: Some(s), ..w })
    } else {
        match (w.settled, w.terminal) {
            (Some(s), None) => (Quiet::Settle(s), Watch { cursor: s, terminal: Some(s), ..w }),
            _ => (Quiet::Wait, w),
        }
    }
}

/// A dead runner's end is written at most once: after it was written, no later quiet journal asks
/// for it again, and once handed over it is never handed over twice.
pub proof fn end_written_once(w: Watch, exited: bool, again: bool)
    requires
        w.cursor < u64::MAX,
    ensures
        quiet_step(w, exited).0 is WriteEnd ==> !(quiet_step(quiet_step(w, exited).1, again).0 is WriteEnd),
        quiet_step(w, exited).0 is Settle ==> quiet_step(quiet_step(w, exited).1, again).0 is Wait,
{
}

/// Once the observer forwarded the owner's Stop, forwarding is never due again.
pub proof fn stop_forwarded_once(w: Watch, asked: bool, later: bool)
    ensures
        stop_due(w, asked) ==> !stop_due(Watch { stop_sent: w.stop_sent || asked, ..w }, later),
{
}

/// Which terminal fact this observer itself read may end its runner: only the last frame it read,
/// and only when that frame was a terminal fact.
pub open spec fn acknowledges(w: Watch, sequence: u64) -> bool {
    w.cursor == sequence && w.terminal == Some(sequence)
}

/// Acknowledge refuses to remove a runner's tree for anything but the terminal fact this observer
/// itself read; refusing keeps the tree and ends no turn.
pub fn acknowledge(w: Watch, sequence: u64) -> (r: Result<(), String>)
    ensures
        acknowledges(w, sequence) <==> r is Ok,
        r matches Err(e) ==> e@ == "Windows Work acknowledgement is invalid"@,
{
    let known = match w.terminal {
        Some(t) => t == sequence,
        None => false,
    };
    if sequence != w.cursor || !known {
        return Err("Windows Work acknowledgement is invalid".to_string());
    }
    Ok(())
}

} // verus!
