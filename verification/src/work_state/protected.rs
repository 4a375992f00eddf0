//! Protected output evidence stays durable for one Work's complete native history.

use vstd::prelude::*;
use crate::evidence::{MAX_PROTECTED_BYTES, MAX_PROTECTED_ITEMS, MAX_PROTECTED_ITEM_BYTES};
use crate::request::{copy_texts, texts};
use crate::text::{same_text, trim, trimmed};
use super::model::{EntryView, RunningView};
use super::repair::unavailable_text;
use super::store::{WorkStore, running_of, with_running};

verus! {

/// Shorter tool output carries too little to be worth protecting.
pub const MIN_PROTECTED_LITERAL_BYTES: usize = 8;

/// The number of bytes a text takes in UTF-8, as its length reports it.
pub open spec fn byte_len(s: Seq<char>) -> int {
    (vstd::utf8::encode_utf8(s).len() as usize) as int
}

/// The bytes a list of protected outputs holds in all.
pub open spec fn total_bytes(list: Seq<Seq<char>>) -> int
    decreases list.len(),
{
    if list.len() == 0 {
        0
    } else {
        total_bytes(list.drop_last()) + byte_len(list.last())
    }
}

/// Whether one more distinct output still fits the protected set's bounds.
pub open spec fn fits(list: Seq<Seq<char>>, output: Seq<char>) -> bool {
    &&& !list.contains(output)
    &&& byte_len(output) <= MAX_PROTECTED_ITEM_BYTES
    &&& list.len() < MAX_PROTECTED_ITEMS
    &&& total_bytes(list) + byte_len(output) <= MAX_PROTECTED_BYTES
}

/// Whether one more output joins the protected set.
pub open spec fn admits(list: Seq<Seq<char>>, output: Seq<char>) -> bool {
    byte_len(trimmed(output)) >= MIN_PROTECTED_LITERAL_BYTES && fits(list, output)
}

/// The bounded prefix of a stored protected set that is kept in memory.
pub open spec fn kept_prefix(outputs: Seq<Seq<char>>) -> Seq<Seq<char>>
    decreases outputs.len(),
{
    if outputs.len() == 0 {
        Seq::empty()
    } else {
        let prev = kept_prefix(outputs.drop_last());
        if fits(prev, outputs.last()) {
            prev.push(outputs.last())
        } else {
            prev
        }
    }
}

/// The protected set after each output was offered in order.
pub open spec fn absorbed(list: Seq<Seq<char>>, outputs: Seq<Seq<char>>) -> Seq<Seq<char>>
    decreases outputs.len(),
{
    if outputs.len() == 0 {
        list
    } else {
        let prev = absorbed(list, outputs.drop_last());
        if admits(prev, outputs.last()) {
            prev.push(outputs.last())
        } else {
            prev
        }
    }
}

/// A rollback restores the protected set when its durable save fails.
pub struct ProtectedRollback {
    outputs: Vec<String>,
}

impl View for ProtectedRollback {
    type V = Seq<Seq<char>>;

    closed spec fn view(&self) -> Seq<Seq<char>> {
        texts(self.outputs@)
    }
}

/// Absorbing only ever appends.
pub proof fn absorbed_extends(list: Seq<Seq<char>>, outputs: Seq<Seq<char>>)
    ensures
        absorbed(list, outputs).len() >= list.len(),
        absorbed(list, outputs).subrange(0, list.len() as int) == list,
    decreases outputs.len(),
{
    if outputs.len() > 0 {
        absorbed_extends(list, outputs.drop_last());
        let prev = absorbed(list, outputs.drop_last());
        if admits(prev, outputs.last()) {
            assert(prev.push(outputs.last()).subrange(0, list.len() as int) =~= prev.subrange(
                0,
                list.len() as int,
            ));
        }
    }
}

/// The protected set never exceeds its bounds once within them, and never repeats an output.
pub proof fn absorbed_bounded(list: Seq<Seq<char>>, outputs: Seq<Seq<char>>)
    requires
        list.len() <= MAX_PROTECTED_ITEMS,
        total_bytes(list) <= MAX_PROTECTED_BYTES,
        forall|a: int, b: int| 0 <= a < b < list.len() ==> list[a] != list[b],
    ensures
        absorbed(list, outputs).len() <= MAX_PROTECTED_ITEMS,
        total_bytes(absorbed(list, outputs)) <= MAX_PROTECTED_BYTES,
        forall|a: int, b: int|
            0 <= a < b < absorbed(list, outputs).len() ==> absorbed(list, outputs)[a] != absorbed(
                list,
                outputs,
            )[b],
    decreases outputs.len(),
{
    if outputs.len() > 0 {
        absorbed_bounded(list, outputs.drop_last());
        let prev = absorbed(list, outputs.drop_last());
        let o = outputs.last();
        if admits(prev, o) {
            let next = prev.push(o);
            assert(next.drop_last() =~= prev);
            assert forall|a: int, b: int| 0 <= a < b < next.len() implies next[a] != next[b] by {
                if b == prev.len() {
                    assert(prev.contains(next[a]) ==> true);
                    if next[a] == o {
                        assert(prev[a] == o);
                        assert(prev.contains(o));
                    }
                }
            }
        }
    }
}

/// Whether a list of texts already holds this exact text.
fn holds_text(list: &Vec<String>, s: &str) -> (r: bool)
    ensures
        r == texts(list@).contains(s@),
{
    let mut q: usize = 0;
    while q < list.len()
        invariant
            q <= list@.len(),
            forall|t: int| 0 <= t < q ==> texts(list@)[t] != s@,
        decreases list.len() - q,
    {
        if same_text(list[q].as_str(), s) {
            assert(texts(list@)[q as int] == s@);
            return true;
        }
        q = q + 1;
    }
    false
}

/// Offers one output to the protected set whose running byte count is `bytes`.
fn offer(list: &mut Vec<String>, bytes: &mut usize, output: &String)
    requires
        *old(bytes) == (if total_bytes(texts(old(list)@)) < usize::MAX {
            total_bytes(texts(old(list)@))
        } else {
            usize::MAX as int
        }),
    ensures
        texts(final(list)@) == (if admits(texts(old(list)@), output@) {
            texts(old(list)@).push(output@)
        } else {
            texts(old(list)@)
        }),
        *final(bytes) == (if total_bytes(texts(final(list)@)) < usize::MAX {
            total_bytes(texts(final(list)@))
        } else {
            usize::MAX as int
        }),
{
    let ghost prev = texts(list@);
    let trimmed_len = trim(output.as_str()).as_str().len();
    let len = output.as_str().len();
    let present = holds_text(list, output.as_str());
    let fits = trimmed_len >= MIN_PROTECTED_LITERAL_BYTES && !present && len
        <= MAX_PROTECTED_ITEM_BYTES && list.len() < MAX_PROTECTED_ITEMS && bytes.saturating_add(len)
        <= MAX_PROTECTED_BYTES;
    assert(fits == admits(prev, output@));
    if fits {
        *bytes = *bytes + len;
        list.push(output.clone());
        proof {
            assert(texts(list@) =~= prev.push(output@));
            assert(texts(list@).drop_last() =~= prev);
        }
    }
}

/// ProtectedOutputsPrefix restores only the bounded in-memory prefix; spill files retain later literals.
pub fn protected_outputs_prefix(outputs: Vec<String>) -> (r: Vec<String>)
    ensures
        texts(r@) == kept_prefix(texts(outputs@)),
{
    let ghost given = texts(outputs@);
    let mut kept: Vec<String> = Vec::new();
    let mut bytes: usize = 0;
    let mut j: usize = 0;
    while j < outputs.len()
        invariant
            j <= outputs@.len(),
            given == texts(outputs@),
            texts(kept@) == kept_prefix(given.take(j as int)),
            bytes == (if total_bytes(texts(kept@)) < usize::MAX {
                total_bytes(texts(kept@))
            } else {
                usize::MAX as int
            }),
        decreases outputs.len() - j,
    {
        proof {
            assert(given.take(j + 1).drop_last() =~= given.take(j as int));
            assert(given.take(j + 1).last() == outputs@[j as int]@);
        }
        let output = &outputs[j];
        let ghost prev = texts(kept@);
        let len = output.as_str().len();
        let present = holds_text(&kept, output.as_str());
        let fit = !present && len <= MAX_PROTECTED_ITEM_BYTES && kept.len() < MAX_PROTECTED_ITEMS
            && bytes.saturating_add(len) <= MAX_PROTECTED_BYTES;
        assert(fit == fits(prev, output@));
        if fit {
            bytes = bytes + len;
            kept.push(output.clone());
            proof {
                assert(texts(kept@) =~= prev.push(output@));
                assert(texts(kept@).drop_last() =~= prev);
            }
        }
        j = j + 1;
    }
    proof {
        assert(given.take(outputs@.len() as int) =~= given);
    }
    kept
}

impl WorkStore {
    /// AbsorbProtected adds each new exact tool output within the Work's bounds, in order.
    pub fn absorb_protected(&mut self, work_id: &str, outputs: &Vec<String>) -> (r: Result<
        Option<ProtectedRollback>,
        String,
    >)
        requires
            old(self).wf(),
        ensures
            final(self).wf(),
            final(self).owned() == old(self).owned(),
            match running_of(old(self)@, work_id@) {
                None => (r matches Err(m) && m@ == unavailable_text()) && final(self)@ == old(self)@,
                Some(w) => {
                    let next = absorbed(w.protected_outputs, texts(outputs@));
                    if next.len() == w.protected_outputs.len() {
                        r matches Ok(None) && final(self)@ == old(self)@
                    } else {
                        (r matches Ok(Some(rb)) && rb@ == w.protected_outputs) && final(self)@
                            == with_running(
                            old(self)@,
                            work_id@,
                            RunningView { protected_outputs: next, ..w },
                        )
                    }
                },
            },
    {
        let (i, mut work) = match self.take_running(work_id) {
            Some(found) => found,
            None => return Err("Running Work binding is unavailable".to_owned()),
        };
        let ghost rows0 = old(self).rows();
        let ghost w = work@;
        let ghost given = texts(outputs@);
        let rollback = ProtectedRollback { outputs: copy_texts(&work.protected_outputs) };
        let start = work.protected_outputs.len();
        let mut bytes: usize = 0;
        let mut k: usize = 0;
        while k < work.protected_outputs.len()
            invariant
                k <= work.protected_outputs@.len(),
                texts(work.protected_outputs@) == w.protected_outputs,
                bytes == (if total_bytes(w.protected_outputs.take(k as int)) < usize::MAX {
                    total_bytes(w.protected_outputs.take(k as int))
                } else {
                    usize::MAX as int
                }),
            decreases work.protected_outputs.len() - k,
        {
            proof {
                assert(w.protected_outputs.take(k + 1).drop_last() =~= w.protected_outputs.take(
                    k as int,
                ));
                assert(w.protected_outputs.take(k + 1).last() == w.protected_outputs[k as int]);
            }
            let item = work.protected_outputs[k].as_str().len();
            assert(item == byte_len(w.protected_outputs[k as int]));
            bytes = bytes.saturating_add(item);
            k = k + 1;
        }
        proof {
            assert(w.protected_outputs.take(k as int) =~= w.protected_outputs);
        }
        let mut list = copy_texts(&work.protected_outputs);
        let mut j: usize = 0;
        while j < outputs.len()
            invariant
                j <= outputs@.len(),
                given == texts(outputs@),
                texts(list@) == absorbed(w.protected_outputs, given.take(j as int)),
                bytes == (if total_bytes(texts(list@)) < usize::MAX {
                    total_bytes(texts(list@))
                } else {
                    usize::MAX as int
                }),
            decreases outputs.len() - j,
        {
            proof {
                assert(given.take(j + 1).drop_last() =~= given.take(j as int));
                assert(given.take(j + 1).last() == outputs@[j as int]@);
            }
            offer(&mut list, &mut bytes, &outputs[j]);
            j = j + 1;
        }
        work.protected_outputs = list;
        proof {
            assert(given.take(outputs@.len() as int) =~= given);
            absorbed_extends(w.protected_outputs, given);
        }
        let changed = work.protected_outputs.len() != start;
        let ghost changed_view = work@;
        self.put_running(i, work, Ghost(rows0));
        if changed {
            Ok(Some(rollback))
        } else {
            proof {
                let next = absorbed(w.protected_outputs, given);
                assert(next =~= w.protected_outputs);
                assert(changed_view == w);
                assert(old(self)@.insert(work_id@, EntryView::Running(changed_view)) =~= old(
                    self,
                )@);
            }
            Ok(None)
        }
    }

    /// RestoreProtected puts back the protected set a failed save could not commit.
    pub fn restore_protected(&mut self, work_id: &str, rollback: ProtectedRollback)
        requires
            old(self).wf(),
        ensures
            final(self).wf(),
            final(self).owned() == old(self).owned(),
            match running_of(old(self)@, work_id@) {
                Some(w) => final(self)@ == with_running(
                    old(self)@,
                    work_id@,
                    RunningView { protected_outputs: rollback@, ..w },
                ),
                None => final(self)@ == old(self)@,
            },
    {
        let (i, mut work) = match self.take_running(work_id) {
            Some(found) => found,
            None => return,
        };
        let ghost rows0 = old(self).rows();
        work.protected_outputs = rollback.outputs;
        self.put_running(i, work, Ghost(rows0));
    }
}

} // verus!
