//! The Windows runner's decisions: how its output streams become ordered journal records, how
//! its failures are reported, and the one hidden command that starts it.

use vstd::prelude::*;
use crate::egress::replace_all;
use crate::text::{push_text, string_of};

verus! {

/// One unterminated Provider record may not exhaust local memory; past this it is the record
/// that is released, and the turn streams on.
pub const MAX_PROVIDER_RECORD_BYTES: usize = 1048576;

/// The failure a runner reports when ending its process tree failed too.
pub open spec fn cleanup_text(primary: Seq<char>, cleanup: Result<(), Seq<char>>) -> Seq<char> {
    match cleanup {
        Ok(_) => primary,
        Err(e) => primary + "; cleanup failed: "@ + e,
    }
}

/// CleanupError preserves both the Work failure and any failure to end its process tree.
pub fn cleanup_error(primary: String, cleanup: Result<(), String>) -> (r: String)
    ensures
        r@ == cleanup_text(
            primary@,
            match cleanup {
                Ok(_) => Ok(()),
                Err(e) => Err(e@),
            },
        ),
{
    match cleanup {
        Ok(()) => primary,
        Err(error) => {
            let mut out: Vec<char> = Vec::new();
            push_text(&mut out, primary.as_str());
            push_text(&mut out, "; cleanup failed: ");
            push_text(&mut out, error.as_str());
            string_of(out.as_slice())
        },
    }
}

/// Joined reports every cleanup failure at once, or success when there was none.
pub fn joined(errors: &Vec<String>) -> (r: Result<(), String>)
    ensures
        errors@.len() == 0 ==> r is Ok,
        errors@.len() != 0 ==> (r matches Err(e) && e@ == crate::preview::joined(
            crate::preview::texts_of(errors@),
            "; "@,
        )),
{
    if errors.len() == 0 {
        return Ok(());
    }
    let ghost all = crate::preview::texts_of(errors@);
    let mut out: Vec<char> = Vec::new();
    push_text(&mut out, errors[0].as_str());
    proof {
        assert(all.take(1) =~= seq![all[0]]);
    }
    let mut k: usize = 1;
    while k < errors.len()
        invariant
            1 <= k <= errors@.len(),
            all == crate::preview::texts_of(errors@),
            out@ == crate::preview::joined(all.take(k as int), "; "@),
        decreases errors.len() - k,
    {
        proof {
            assert(all.take(k + 1).drop_last() =~= all.take(k as int));
            assert(all.take(k + 1).last() == errors@[k as int]@);
        }
        push_text(&mut out, "; ");
        push_text(&mut out, errors[k].as_str());
        k = k + 1;
    }
    proof {
        assert(all.take(errors@.len() as int) =~= all);
    }
    Err(string_of(out.as_slice()))
}

/// A launch failure joined with the failure to end its process, when there was one.
pub open spec fn joined_failure(error: Seq<char>, process: Result<(), Seq<char>>) -> Seq<char> {
    match process {
        Ok(_) => error,
        Err(e) => error + "; "@ + e,
    }
}

/// JoinErrors reports a launch failure together with any failure to clean up after it.
pub fn join_errors(error: String, process: Result<(), String>) -> (r: String)
    ensures
        r@ == joined_failure(
            error@,
            match process {
                Ok(_) => Ok(()),
                Err(e) => Err(e@),
            },
        ),
{
    match process {
        Ok(()) => error,
        Err(cleanup) => {
            let mut out: Vec<char> = Vec::new();
            push_text(&mut out, error.as_str());
            push_text(&mut out, "; ");
            push_text(&mut out, cleanup.as_str());
            string_of(out.as_slice())
        },
    }
}

/// One event from the runner's output readers.
pub enum RunnerOutput {
    /// A complete chunk of one stream, tagged with its journal kind.
    Bytes(u8, Vec<u8>),
    /// One reader reached the end of its stream, cleanly or with this error.
    Closed(Result<(), String>),
    /// Every reader is gone: nothing more can arrive.
    Gone,
}

/// Where the runner's journal stands: the sequence of the next frame, and how many output
/// streams are still open.
#[derive(Clone, Copy, PartialEq, Eq, Structural)]
pub struct JournalCursor {
    pub sequence: u64,
    pub outputs: u8,
}

/// What one output event asks of the journal: the frame to append, if any, the cursor after it,
/// and the kind of Provider bytes it carried.
pub struct Recorded {
    pub frame: Option<(u64, u8, Vec<u8>)>,
    pub next: JournalCursor,
    pub carried: Option<u8>,
}

/// RecordOutput decides how one output event is journaled. A stream that ends badly is journaled
/// as the diagnostic it is: the Provider's own outcome decides the turn, never the state of the
/// pipe carrying it.
pub fn record_output(event: RunnerOutput, at: JournalCursor) -> (r: Recorded)
    requires
        at.sequence < u64::MAX,
        event is Closed ==> at.outputs > 0,
    ensures
        match event {
            RunnerOutput::Bytes(kind, bytes) => (r.frame matches Some((s, k, b)) && s == at.sequence
                && k == kind && b@ == bytes@) && r.next == (JournalCursor {
                sequence: (at.sequence + 1) as u64,
                outputs: at.outputs,
            }) && r.carried == Some(kind),
            RunnerOutput::Closed(Ok(())) => r.frame is None && r.next == (JournalCursor {
                sequence: at.sequence,
                outputs: (at.outputs - 1) as u8,
            }) && r.carried is None,
            RunnerOutput::Closed(Err(e)) => (r.frame matches Some((s, k, b)) && s == at.sequence
                && k == crate::journal::STDERR && b@ == vstd::utf8::encode_utf8(e@)) && r.next == (
            JournalCursor { sequence: (at.sequence + 1) as u64, outputs: (at.outputs - 1) as u8 })
                && r.carried is None,
            RunnerOutput::Gone => r.frame is None && r.next == (JournalCursor {
                sequence: at.sequence,
                outputs: 0,
            }) && r.carried is None,
        },
{
    match event {
        RunnerOutput::Bytes(kind, bytes) => Recorded {
            frame: Some((at.sequence, kind, bytes)),
            next: JournalCursor { sequence: at.sequence + 1, outputs: at.outputs },
            carried: Some(kind),
        },
        RunnerOutput::Closed(Ok(())) => Recorded {
            frame: None,
            next: JournalCursor { sequence: at.sequence, outputs: at.outputs - 1 },
            carried: None,
        },
        RunnerOutput::Closed(Err(error)) => {
            let bytes = copy_bytes(error.as_str().as_bytes());
            Recorded {
                frame: Some((at.sequence, crate::journal::STDERR, bytes)),
                next: JournalCursor { sequence: at.sequence + 1, outputs: at.outputs - 1 },
                carried: None,
            }
        },
        RunnerOutput::Gone => Recorded {
            frame: None,
            next: JournalCursor { sequence: at.sequence, outputs: 0 },
            carried: None,
        },
    }
}

fn copy_bytes(b: &[u8]) -> (r: Vec<u8>)
    ensures
        r@ == b@,
{
    let mut out: Vec<u8> = Vec::new();
    let mut i: usize = 0;
    while i < b.len()
        invariant
            i <= b@.len(),
            out@ == b@.take(i as int),
        decreases b.len() - i,
    {
        out.push(b[i]);
        proof {
            assert(b@.take(i + 1) =~= b@.take(i as int).push(b@[i as int]));
        }
        i = i + 1;
    }
    proof {
        assert(b@.take(b@.len() as int) =~= b@);
    }
    out
}

/// The diagnostic a runner journals when its Provider stopped reading the Work input.
pub open spec fn input_lost_text() -> Seq<char> {
    "Local Agent stopped reading its input"@
}

/// InputDiagnostic is the diagnostic the closing of the Provider's input leaves in the journal:
/// none after an owner Stop or a clean close.
pub fn input_diagnostic(stopped: bool, written: bool) -> (r: Option<&'static str>)
    ensures
        (!stopped && !written) ==> (r matches Some(t) && t@ == input_lost_text()),
        (stopped || written) ==> r is None,
{
    if !stopped && !written {
        Some("Local Agent stopped reading its input")
    } else {
        None
    }
}

/// What a runner leaves once its Provider is gone: whether the workspace is frozen for delivery,
/// and the terminal fact it journals last.
pub open spec fn runner_finish(stopped: bool, succeeded: bool, native_completed: bool) -> (bool, u8) {
    (
        !stopped && (succeeded || native_completed),
        if stopped {
            crate::journal::STOPPED
        } else {
            crate::journal::DONE
        },
    )
}

/// RunnerFinish: a Provider with unreliable exits proves completion through its own result; an
/// owner Stop never freezes a delivery and always ends as Stopped.
pub fn finish_facts(stopped: bool, succeeded: bool, native_completed: bool) -> (r: (bool, u8))
    ensures
        r == runner_finish(stopped, succeeded, native_completed),
{
    (!stopped && (succeeded || native_completed), if stopped {
        crate::journal::STOPPED
    } else {
        crate::journal::DONE
    })
}

/// The frames a finishing runner journals, in order from `next`: a failed freeze of a due
/// delivery is journaled as its diagnostic, and the terminal fact comes last.
pub open spec fn closing_frames(
    stopped: bool,
    succeeded: bool,
    native_completed: bool,
    freeze: Result<(), Seq<char>>,
    next: u64,
) -> Seq<(u64, u8, Seq<u8>)> {
    let (frozen, terminal) = runner_finish(stopped, succeeded, native_completed);
    match freeze {
        Err(e) if frozen => seq![
            (next, crate::journal::STDERR, vstd::utf8::encode_utf8(e)),
            ((next + 1) as u64, terminal, Seq::empty()),
        ],
        _ => seq![(next, terminal, Seq::empty())],
    }
}

pub open spec fn frame_views(frames: Seq<(u64, u8, Vec<u8>)>) -> Seq<(u64, u8, Seq<u8>)> {
    frames.map_values(|f: (u64, u8, Vec<u8>)| (f.0, f.1, f.2@))
}

/// FinishFrames journals a runner's end: `freeze` is what freezing the delivery returned when
/// `finish_facts` made it due, and is not read otherwise; `next` is the sequence of the next frame.
/// The frames carry consecutive sequences and only the last one is terminal.
pub fn finish_frames(
    stopped: bool,
    succeeded: bool,
    native_completed: bool,
    freeze: Result<(), String>,
    next: u64,
) -> (r: Vec<(u64, u8, Vec<u8>)>)
    requires
        next < u64::MAX,
    ensures
        frame_views(r@) == closing_frames(
            stopped,
            succeeded,
            native_completed,
            match freeze {
                Ok(()) => Ok(()),
                Err(e) => Err(e@),
            },
            next,
        ),
        forall|i: int| 0 <= i < r@.len() ==> #[trigger] r@[i].0 == next + i,
        forall|i: int|
            0 <= i < r@.len() ==> (#[trigger] r@[i].1 == crate::journal::STOPPED
                || r@[i].1 == crate::journal::DONE) == (i == r@.len() - 1),
{
    let (frozen, terminal) = finish_facts(stopped, succeeded, native_completed);
    let mut frames: Vec<(u64, u8, Vec<u8>)> = Vec::new();
    let mut sequence = next;
    if frozen {
        if let Err(error) = freeze {
            let bytes = copy_bytes(error.as_str().as_bytes());
            frames.push((sequence, crate::journal::STDERR, bytes));
            sequence = sequence + 1;
        }
    }
    frames.push((sequence, terminal, Vec::new()));
    proof {
        assert(frame_views(frames@) =~= closing_frames(
            stopped,
            succeeded,
            native_completed,
            match freeze {
                Ok(()) => Ok(()),
                Err(e) => Err(e@),
            },
            next,
        ));
    }
    frames
}

/// An owner's Stop always ends the journal as STOPPED and never freezes a delivery, whatever the
/// Provider did; a runner nobody stopped always ends as DONE.
pub proof fn a_stop_is_journaled_as_stopped(succeeded: bool, native_completed: bool, freeze: Result<(), Seq<char>>, next: u64)
    ensures
        runner_finish(true, succeeded, native_completed) == (false, crate::journal::STOPPED),
        runner_finish(false, succeeded, native_completed).1 == crate::journal::DONE,
        closing_frames(true, succeeded, native_completed, freeze, next) == seq![
            (next, crate::journal::STOPPED, Seq::<u8>::empty()),
        ],
        closing_frames(false, succeeded, native_completed, freeze, next).last().1 == crate::journal::DONE,
{
}

/// The records a line-framed stream yields, and what it holds back: each record ends at and
/// includes its newline; the tail of a record that was released goes no further than its own
/// newline.
pub open spec fn lines_of(pending: Seq<u8>, releasing: bool) -> (Seq<Seq<u8>>, Seq<u8>, bool)
    decreases pending.len(),
{
    match newline_at(pending) {
        None => (Seq::empty(), pending, releasing),
        Some(end) => {
            proof {
                lemma_newline_at(pending);
            }
            let rest = lines_of(pending.subrange(end + 1, pending.len() as int), false);
            if releasing {
                rest
            } else {
                (seq![pending.subrange(0, end + 1)] + rest.0, rest.1, rest.2)
            }
        },
    }
}

/// The index of the first newline, if any.
pub open spec fn newline_at(s: Seq<u8>) -> Option<int>
    decreases s.len(),
{
    if s.len() == 0 {
        None
    } else if s[0] == 10 {
        Some(0)
    } else {
        match newline_at(s.drop_first()) {
            Some(i) => Some(i + 1),
            None => None,
        }
    }
}

/// A newline found is a newline, and no earlier byte is one.
pub proof fn lemma_newline_at(s: Seq<u8>)
    ensures
        match newline_at(s) {
            Some(i) => 0 <= i < s.len() && s[i] == 10 && forall|k: int| 0 <= k < i ==> s[k] != 10,
            None => forall|k: int| 0 <= k < s.len() ==> s[k] != 10,
        },
    decreases s.len(),
{
    if s.len() > 0 {
        lemma_newline_at(s.drop_first());
        if s[0] != 10 {
            assert forall|k: int| 0 < k < s.len() implies s[k] == s.drop_first()[k - 1] by {}
        }
    }
}

/// LineSplitter preserves stdout lines in Provider order, releasing one record too large to hold.
pub struct LineSplitter {
    pending: Vec<u8>,
    releasing: bool,
}

/// The bytes held back and whether a released record's tail is still being skipped.
pub open spec fn fed(pending: Seq<u8>, releasing: bool, chunk: Seq<u8>) -> (Seq<Seq<u8>>, Seq<u8>, bool) {
    let split = lines_of(pending + chunk, releasing);
    if split.1.len() > MAX_PROVIDER_RECORD_BYTES {
        (split.0, Seq::empty(), true)
    } else {
        split
    }
}

pub open spec fn byte_lines(v: Seq<Vec<u8>>) -> Seq<Seq<u8>> {
    v.map_values(|l: Vec<u8>| l@)
}

fn append_bytes(v: &mut Vec<u8>, chunk: &[u8])
    ensures
        final(v)@ == old(v)@ + chunk@,
{
    let mut i: usize = 0;
    while i < chunk.len()
        invariant
            i <= chunk@.len(),
            v@ == old(v)@ + chunk@.subrange(0, i as int),
        decreases chunk.len() - i,
    {
        v.push(chunk[i]);
        i = i + 1;
        assert(v@ =~= old(v)@ + chunk@.subrange(0, i as int));
    }
    assert(chunk@.subrange(0, chunk@.len() as int) =~= chunk@);
}

fn copy_range(v: &Vec<u8>, start: usize, end: usize) -> (r: Vec<u8>)
    requires
        start <= end <= v@.len(),
    ensures
        r@ == v@.subrange(start as int, end as int),
{
    let mut out: Vec<u8> = Vec::new();
    let mut k: usize = start;
    while k < end
        invariant
            start <= k <= end <= v@.len(),
            out@ == v@.subrange(start as int, k as int),
        decreases end - k,
    {
        out.push(v[k]);
        k = k + 1;
        assert(out@ =~= v@.subrange(start as int, k as int));
    }
    out
}

/// Splits every complete record off `all`: the records, where the unfinished rest begins, and
/// whether a released record's tail is still being skipped.
fn split_lines(all: &Vec<u8>, releasing: bool) -> (r: (Vec<Vec<u8>>, usize, bool))
    ensures
        r.1 <= all@.len(),
        lines_of(all@, releasing) == (byte_lines(r.0@), all@.subrange(r.1 as int, all@.len() as int), r.2),
{
    let mut out: Vec<Vec<u8>> = Vec::new();
    let mut start: usize = 0;
    let mut rel = releasing;
    let mut j: usize = 0;
    proof {
        assert(all@.subrange(0, all@.len() as int) =~= all@);
        assert(byte_lines(out@) + lines_of(all@, releasing).0 =~= lines_of(all@, releasing).0);
    }
    while j < all.len()
        invariant
            start <= j <= all@.len(),
            forall|k: int| start <= k < j ==> all@[k] != 10,
            lines_of(all@, releasing) == ({
                let rest = lines_of(all@.subrange(start as int, all@.len() as int), rel);
                (byte_lines(out@) + rest.0, rest.1, rest.2)
            }),
        decreases all.len() - j,
    {
        if all[j] == 10 {
            let ghost rest = all@.subrange(start as int, all@.len() as int);
            proof {
                lemma_newline_at(rest);
                assert(rest[j - start] == 10);
                assert forall|k: int| 0 <= k < j - start implies rest[k] != 10 by {
                    assert(rest[k] == all@[start + k]);
                }
                assert(newline_at(rest) == Some(j - start));
                assert(rest.subrange(j - start + 1, rest.len() as int) =~= all@.subrange(
                    j + 1,
                    all@.len() as int,
                ));
            }
            if rel {
                rel = false;
            } else {
                let line = copy_range(all, start, j + 1);
                let ghost o0 = byte_lines(out@);
                proof {
                    assert(rest.subrange(0, j - start + 1) =~= line@);
                }
                out.push(line);
                proof {
                    assert(byte_lines(out@) =~= o0.push(line@));
                    let tail = lines_of(all@.subrange(j + 1, all@.len() as int), false);
                    assert(o0 + (seq![line@] + tail.0) =~= o0.push(line@) + tail.0);
                }
            }
            start = j + 1;
        }
        j = j + 1;
    }
    let ghost rest = all@.subrange(start as int, all@.len() as int);
    proof {
        lemma_newline_at(rest);
        assert forall|k: int| 0 <= k < rest.len() implies rest[k] != 10 by {
            assert(rest[k] == all@[start + k]);
        }
        assert(newline_at(rest) is None);
        assert(byte_lines(out@) + Seq::<Seq<u8>>::empty() =~= byte_lines(out@));
    }
    (out, start, rel)
}

impl LineSplitter {
    pub closed spec fn pending_bytes(&self) -> Seq<u8> {
        self.pending@
    }

    pub closed spec fn is_releasing(&self) -> bool {
        self.releasing
    }

    /// A splitter that holds nothing.
    pub fn new() -> (r: Self)
        ensures
            r.pending_bytes() == Seq::<u8>::empty(),
            !r.is_releasing(),
    {
        LineSplitter { pending: Vec::new(), releasing: false }
    }

    /// Feed takes one chunk read from the stream and returns the complete records it finished.
    pub fn feed(&mut self, chunk: &[u8]) -> (r: Vec<Vec<u8>>)
        ensures
            (byte_lines(r@), final(self).pending_bytes(), final(self).is_releasing()) == fed(
                old(self).pending_bytes(),
                old(self).is_releasing(),
                chunk@,
            ),
    {
        let ghost all = self.pending@ + chunk@;
        append_bytes(&mut self.pending, chunk);
        let (out, start, releasing) = split_lines(&self.pending, self.releasing);
        let tail = copy_range(&self.pending, start, self.pending.len());
        if tail.len() > MAX_PROVIDER_RECORD_BYTES {
            self.pending = Vec::new();
            self.releasing = true;
            proof {
                assert(self.pending@ =~= Seq::<u8>::empty());
            }
        } else {
            self.pending = tail;
            self.releasing = releasing;
        }
        out
    }

    /// Finish reports the last record of a stream that ended without its newline, unless that
    /// record was being released.
    pub fn finish(&self) -> (r: Option<Vec<u8>>)
        ensures
            match r {
                Some(l) => l@ == self.pending_bytes() && self.pending_bytes().len() != 0
                    && !self.is_releasing(),
                None => self.pending_bytes().len() == 0 || self.is_releasing(),
            },
    {
        if self.pending.len() == 0 || self.releasing {
            return None;
        }
        let mut line: Vec<u8> = Vec::new();
        let mut k: usize = 0;
        while k < self.pending.len()
            invariant
                k <= self.pending@.len(),
                line@ == self.pending@.subrange(0, k as int),
            decreases self.pending.len() - k,
        {
            line.push(self.pending[k]);
            k = k + 1;
            assert(line@ =~= self.pending@.subrange(0, k as int));
        }
        assert(line@ =~= self.pending@);
        Some(line)
    }
}

/// Every record a stream yields ends at its own newline.
pub proof fn lines_end_in_newline(pending: Seq<u8>, releasing: bool)
    ensures
        forall|i: int|
            0 <= i < lines_of(pending, releasing).0.len() ==> (#[trigger] lines_of(pending, releasing).0[i]).len() > 0
                && lines_of(pending, releasing).0[i].last() == 10,
    decreases pending.len(),
{
    lemma_newline_at(pending);
    match newline_at(pending) {
        None => {},
        Some(end) => {
            let rest = pending.subrange(end + 1, pending.len() as int);
            lines_end_in_newline(rest, false);
            let head = pending.subrange(0, end + 1);
            let r = lines_of(rest, false);
            if !releasing {
                let all = seq![head] + r.0;
                assert forall|i: int| 0 <= i < all.len() implies (#[trigger] all[i]).len() > 0
                    && all[i].last() == 10 by {
                    if i > 0 {
                        assert(all[i] == r.0[i - 1]);
                    }
                }
            }
        },
    }
}

/// Without a released record, a stream's records followed by what it holds back are exactly
/// its bytes: nothing is lost, reordered or invented.
pub proof fn lines_preserve_bytes(pending: Seq<u8>)
    ensures
        flat(lines_of(pending, false).0) + lines_of(pending, false).1 == pending,
        !lines_of(pending, false).2,
    decreases pending.len(),
{
    lemma_newline_at(pending);
    match newline_at(pending) {
        None => {
            assert(flat(Seq::<Seq<u8>>::empty()) + pending =~= pending);
        },
        Some(end) => {
            let rest = pending.subrange(end + 1, pending.len() as int);
            lines_preserve_bytes(rest);
            let head = pending.subrange(0, end + 1);
            let r = lines_of(rest, false);
            lemma_flat_cons(head, r.0);
            assert(head + rest =~= pending);
            assert(flat(seq![head] + r.0) + r.1 =~= head + (flat(r.0) + r.1));
        },
    }
}

/// The bytes of all records, in order.
pub open spec fn flat(lines: Seq<Seq<u8>>) -> Seq<u8>
    decreases lines.len(),
{
    if lines.len() == 0 {
        Seq::empty()
    } else {
        lines[0] + flat(lines.drop_first())
    }
}

proof fn lemma_flat_cons(head: Seq<u8>, rest: Seq<Seq<u8>>)
    ensures
        flat(seq![head] + rest) == head + flat(rest),
{
    assert((seq![head] + rest).drop_first() =~= rest);
}

/// `'` doubled, as a single-quoted PowerShell argument needs it.
pub open spec fn quoted(value: Seq<char>) -> Seq<char> {
    replace_all(value, "'"@, "''"@)
}

/// Quote preserves an arbitrary path as one single-quoted PowerShell argument.
pub fn quote(value: &str) -> (r: String)
    ensures
        r@ == quoted(value@),
{
    crate::egress::replace_text(value, "'", "''")
}

/// The hidden PowerShell script that starts one Work's runner.
pub open spec fn launch_script(executable: Seq<char>, job: Seq<char>) -> Seq<char> {
    "$ErrorActionPreference='Stop';& '"@ + quoted(executable) + "' '--windows-work' '"@ + quoted(
        job,
    ) + "';exit $LASTEXITCODE"@
}

pub fn runner_script(executable: &str, job: &str) -> (r: String)
    ensures
        r@ == launch_script(executable@, job@),
{
    let mut out: Vec<char> = Vec::new();
    push_text(&mut out, "$ErrorActionPreference='Stop';& '");
    push_text(&mut out, quote(executable).as_str());
    push_text(&mut out, "' '--windows-work' '");
    push_text(&mut out, quote(job).as_str());
    push_text(&mut out, "';exit $LASTEXITCODE");
    string_of(out.as_slice())
}

/// The UTF-16 code units of one character.
pub open spec fn utf16_units(c: char) -> Seq<u16> {
    let v = c as u32;
    if v < 0x10000 {
        seq![v as u16]
    } else {
        let w = (v - 0x10000) as u32;
        seq![(0xD800 + w / 0x400) as u16, (0xDC00 + w % 0x400) as u16]
    }
}

/// Little-endian bytes of each UTF-16 code unit of a text, as PowerShell's encoded commands
/// expect.
pub open spec fn utf16le(s: Seq<char>) -> Seq<u8>
    decreases s.len(),
{
    if s.len() == 0 {
        Seq::empty()
    } else {
        utf16le(s.drop_last()) + unit_bytes(utf16_units(s.last()))
    }
}

pub open spec fn unit_bytes(units: Seq<u16>) -> Seq<u8>
    decreases units.len(),
{
    if units.len() == 0 {
        Seq::empty()
    } else {
        seq![(units[0] % 256) as u8, (units[0] / 256) as u8] + unit_bytes(units.drop_first())
    }
}

proof fn lemma_unit_bytes_one(a: u16)
    ensures
        unit_bytes(seq![a]) == seq![(a % 256) as u8, (a / 256) as u8],
{
    assert(seq![a].drop_first() =~= Seq::<u16>::empty());
    assert(unit_bytes(Seq::<u16>::empty()) == Seq::<u8>::empty());
    assert(unit_bytes(seq![a]) =~= seq![(a % 256) as u8, (a / 256) as u8] + Seq::<u8>::empty());
}

proof fn lemma_unit_bytes_two(a: u16, b: u16)
    ensures
        unit_bytes(seq![a, b]) == seq![(a % 256) as u8, (a / 256) as u8, (b % 256) as u8, (b / 256) as u8],
{
    assert(seq![a, b].drop_first() =~= seq![b]);
    lemma_unit_bytes_one(b);
    assert(unit_bytes(seq![a, b]) =~= seq![(a % 256) as u8, (a / 256) as u8, (b % 256) as u8, (b / 256) as u8]);
}

fn push_unit(out: &mut Vec<u8>, unit: u16)
    ensures
        final(out)@ == old(out)@ + seq![(unit % 256) as u8, (unit / 256) as u8],
{
    out.push((unit % 256) as u8);
    out.push((unit / 256) as u8);
    assert(final(out)@ =~= old(out)@ + seq![(unit % 256) as u8, (unit / 256) as u8]);
}

/// The UTF-16LE bytes of a text.
pub fn utf16le_bytes(text: &str) -> (r: Vec<u8>)
    ensures
        r@ == utf16le(text@),
{
    let v = crate::text::chars_of(text);
    let mut out: Vec<u8> = Vec::new();
    let mut i: usize = 0;
    while i < v.len()
        invariant
            v@ == text@,
            i <= v@.len(),
            out@ == utf16le(text@.take(i as int)),
        decreases v.len() - i,
    {
        proof {
            assert(text@.take(i + 1).drop_last() =~= text@.take(i as int));
            assert(text@.take(i + 1).last() == v@[i as int]);
        }
        let c = v[i] as u32;
        let ghost o0 = out@;
        if c < 0x10000 {
            push_unit(&mut out, c as u16);
            proof {
                lemma_unit_bytes_one(c as u16);
            }
        } else {
            let w = c - 0x10000;
            proof {
                vstd::utf8::char_is_scalar(v@[i as int]);
            }
            assert(c <= 0x10FFFF);
            let hi = (0xD800 + w / 0x400) as u16;
            let lo = (0xDC00 + w % 0x400) as u16;
            push_unit(&mut out, hi);
            push_unit(&mut out, lo);
            proof {
                lemma_unit_bytes_two(hi, lo);
            }
        }
        i = i + 1;
        assert(out@ =~= utf16le(text@.take(i as int)));
    }
    proof {
        assert(text@.take(v@.len() as int) =~= text@);
    }
    out
}

/// The standard base64 alphabet.
pub open spec fn b64_char(n: int) -> char {
    if n < 26 {
        ((65 + n) as u32) as char
    } else if n < 52 {
        ((97 + n - 26) as u32) as char
    } else if n < 62 {
        ((48 + n - 52) as u32) as char
    } else if n == 62 {
        '+'
    } else {
        '/'
    }
}

/// Standard base64 with padding: each three bytes become four characters.
pub open spec fn base64_text(b: Seq<u8>) -> Seq<char>
    decreases b.len(),
{
    if b.len() == 0 {
        Seq::empty()
    } else {
        let x = b[0] as int;
        if b.len() == 1 {
            seq![b64_char(x / 4), b64_char((x % 4) * 16), '=', '=']
        } else {
            let y = b[1] as int;
            if b.len() == 2 {
                seq![b64_char(x / 4), b64_char((x % 4) * 16 + y / 16), b64_char((y % 16) * 4), '=']
            } else {
                let z = b[2] as int;
                seq![
                    b64_char(x / 4),
                    b64_char((x % 4) * 16 + y / 16),
                    b64_char((y % 16) * 4 + z / 64),
                    b64_char(z % 64),
                ] + base64_text(b.subrange(3, b.len() as int))
            }
        }
    }
}

/// Calls `base64::engine::general_purpose::STANDARD.encode`: the standard alphabet with
/// padding, as RFC 4648 defines it.
#[verifier::external_body]
fn base64_standard(bytes: &[u8]) -> (r: String)
    ensures
        r@ == base64_text(bytes@),
{
    base64::Engine::encode(&base64::engine::general_purpose::STANDARD, bytes)
}

/// The argument PowerShell's `-EncodedCommand` takes to run one Work's runner.
pub fn encoded_command(executable: &str, job: &str) -> (r: String)
    ensures
        r@ == base64_text(utf16le(launch_script(executable@, job@))),
{
    let script = runner_script(executable, job);
    let bytes = utf16le_bytes(script.as_str());
    base64_standard(bytes.as_slice())
}


/// A setup subprocess keeps at most this much of each output stream.
pub const DIAGNOSTIC_BYTES: usize = 1048576;

/// The note that ends a stream whose output was cut.
pub open spec fn truncated_note() -> Seq<u8> {
    vstd::utf8::encode_utf8("\n[ArchiGoat: diagnostic output truncated]\n"@)
}

/// The first `DIAGNOSTIC_BYTES` of a stream.
pub open spec fn clipped(s: Seq<u8>) -> Seq<u8> {
    if s.len() > DIAGNOSTIC_BYTES {
        s.take(DIAGNOSTIC_BYTES as int)
    } else {
        s
    }
}

/// DiagnosticOutput collects one subprocess stream, keeping only its first bytes so a chatty
/// setup command cannot exhaust memory, and says so when it cut anything.
pub struct DiagnosticOutput {
    kept: Vec<u8>,
    cut: bool,
}

impl DiagnosticOutput {
    pub closed spec fn held(&self) -> Seq<u8> {
        self.kept@
    }

    pub closed spec fn dropped(&self) -> bool {
        self.cut
    }

    pub fn new() -> (r: Self)
        ensures
            r.held() == Seq::<u8>::empty(),
            !r.dropped(),
    {
        DiagnosticOutput { kept: Vec::new(), cut: false }
    }

    /// Absorb takes one chunk read from the stream.
    pub fn absorb(&mut self, chunk: &[u8])
        requires
            old(self).held().len() <= DIAGNOSTIC_BYTES,
        ensures
            final(self).held() == clipped(old(self).held() + chunk@),
            final(self).dropped() == (old(self).dropped() || (old(self).held() + chunk@).len()
                > DIAGNOSTIC_BYTES),
            final(self).held().len() <= DIAGNOSTIC_BYTES,
    {
        let room = DIAGNOSTIC_BYTES - self.kept.len();
        let keep = if chunk.len() < room {
            chunk.len()
        } else {
            room
        };
        let ghost before = self.kept@;
        let ghost cut0 = self.cut;
        let mut i: usize = 0;
        while i < keep
            invariant
                self.cut == cut0,
                keep <= chunk@.len(),
                i <= keep,
                self.kept@ == before + chunk@.take(i as int),
            decreases keep - i,
        {
            self.kept.push(chunk[i]);
            proof {
                assert(chunk@.take(i + 1) =~= chunk@.take(i as int).push(chunk@[i as int]));
            }
            i = i + 1;
        }
        if keep < chunk.len() {
            self.cut = true;
        }
        proof {
            let all = before + chunk@;
            if all.len() > DIAGNOSTIC_BYTES {
                assert(self.kept@ =~= all.take(DIAGNOSTIC_BYTES as int));
            } else {
                assert(chunk@.take(keep as int) =~= chunk@);
                assert(self.kept@ =~= all);
            }
        }
    }

    /// Finish is the collected output, with the note appended when anything was cut.
    pub fn finish(self) -> (r: Vec<u8>)
        ensures
            r@ == self.held() + (if self.dropped() {
                truncated_note()
            } else {
                Seq::<u8>::empty()
            }),
    {
        let mut out = self.kept;
        if self.cut {
            let note = "\n[ArchiGoat: diagnostic output truncated]\n".as_bytes();
            let ghost before = out@;
            let mut i: usize = 0;
            while i < note.len()
                invariant
                    i <= note@.len(),
                    out@ == before + note@.take(i as int),
                decreases note.len() - i,
            {
                out.push(note[i]);
                proof {
                    assert(note@.take(i + 1) =~= note@.take(i as int).push(note@[i as int]));
                }
                i = i + 1;
            }
            proof {
                assert(note@.take(note@.len() as int) =~= note@);
            }
        } else {
            proof {
                assert(out@ + Seq::<u8>::empty() =~= out@);
            }
        }
        out
    }
}

/// Reading a stream in chunks keeps exactly what reading it whole would: its first
/// `DIAGNOSTIC_BYTES`, whatever the chunk boundaries.
pub proof fn chunks_clip_as_one(a: Seq<u8>, b: Seq<u8>)
    ensures
        clipped(clipped(a) + b) == clipped(a + b),
{
    if a.len() > DIAGNOSTIC_BYTES {
        assert(clipped(a + b) =~= a.take(DIAGNOSTIC_BYTES as int));
        assert(clipped(clipped(a) + b) =~= a.take(DIAGNOSTIC_BYTES as int));
    } else {
        assert(clipped(a) + b =~= a + b);
    }
}

} // verus!
