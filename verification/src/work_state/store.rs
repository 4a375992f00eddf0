//! WorkStore performs idempotent lifecycle transitions for independent Work identities.

use vstd::prelude::*;
use crate::evidence::opt_text;
use crate::provider::Provider;
use crate::state::{ProgressView, RunProgress, RunSnapshot, copy_progress, copy_text, opt_progress};
use crate::text::same_text;
use super::model::{
    DoneView, DoneWork, Entry, EntryView, PendingView, Running, RunningView, StoppedView,
    StoppedWork, running_from_view, snapshot, snapshot_of, MAX_REPAIRS,
};
use crate::evidence::ResultKind;
use crate::request::texts;
use crate::state::{DeliveryFile, FileView, copy_files, files};
use super::order::{id_less, less_than, lemma_less_total, lemma_less_transitive};
use super::table::{
    index_map, lemma_absent, lemma_insert, lemma_lookup, lemma_remove, lemma_replace,
    lemma_distinct, sorted, views,
};

verus! {

/// WorkStore gives each Work ID one lifecycle without a global concurrency ceiling.
pub struct WorkStore {
    entries: Vec<Entry>,
    native_owned: Vec<String>,
}

impl View for WorkStore {
    type V = Map<Seq<char>, EntryView>;

    closed spec fn view(&self) -> Map<Seq<char>, EntryView> {
        index_map(views(self.entries@))
    }
}

/// The Running owner recorded for one identity, if that Work is Running.
pub open spec fn running_of(m: Map<Seq<char>, EntryView>, id: Seq<char>) -> Option<RunningView> {
    if m.contains_key(id) && m[id] is Running {
        Some(m[id]->Running_0)
    } else {
        None
    }
}

/// The map after one Running owner changed to `w`.
pub open spec fn with_running(
    m: Map<Seq<char>, EntryView>,
    id: Seq<char>,
    w: RunningView,
) -> Map<Seq<char>, EntryView> {
    m.insert(id, EntryView::Running(w))
}

impl WorkStore {
    /// The store's own consistency: one entry per identity, each owned identity listed once.
    pub closed spec fn wf(&self) -> bool {
        &&& sorted(views(self.entries@))
        &&& forall|i: int, j: int|
            0 <= i < j < self.native_owned@.len() ==> (#[trigger] self.native_owned@[i])@
                != (#[trigger] self.native_owned@[j])@
    }

    /// Identities whose Agent this process physically holds right now.
    pub closed spec fn owned(&self) -> Set<Seq<char>> {
        Set::new(
            |k: Seq<char>|
                exists|i: int| 0 <= i < self.native_owned@.len() && (#[trigger] self.native_owned@[i])@ == k,
        )
    }

    /// An empty store.
    pub fn new() -> (r: Self)
        ensures
            r.wf(),
            r@ == Map::<Seq<char>, EntryView>::empty(),
            r.owned() == Set::<Seq<char>>::empty(),
    {
        let r = WorkStore { entries: Vec::new(), native_owned: Vec::new() };
        assert(r@ =~= Map::<Seq<char>, EntryView>::empty());
        assert(r.owned() =~= Set::<Seq<char>>::empty());
        r
    }

    /// The index of one identity's entry.
    fn find(&self, id: &str) -> (r: Option<usize>)
        requires
            self.wf(),
        ensures
            match r {
                Some(i) => i < self.entries@.len() && self.entries@[i as int]@.id() == id@
                    && self@.contains_key(id@) && self@[id@] == self.entries@[i as int]@,
                None => !self@.contains_key(id@),
            },
    {
        let mut i: usize = 0;
        while i < self.entries.len()
            invariant
                self.wf(),
                i <= self.entries@.len(),
                forall|k: int| 0 <= k < i ==> (#[trigger] views(self.entries@)[k]).id() != id@,
            decreases self.entries.len() - i,
        {
            if same_text(self.entries[i].work_id().as_str(), id) {
                proof {
                    lemma_lookup(views(self.entries@), i as int);
                }
                return Some(i);
            }
            i = i + 1;
        }
        proof {
            lemma_absent(views(self.entries@), id@);
        }
        None
    }

    /// The Running owner of one identity, if that Work is Running.
    pub(crate) fn running_ref(&self, work_id: &str) -> (r: Option<&Running>)
        requires
            self.wf(),
        ensures
            match r {
                Some(w) => running_of(self@, work_id@) == Some(w@),
                None => running_of(self@, work_id@) is None,
            },
    {
        match self.find(work_id) {
            Some(i) => match &self.entries[i] {
                Entry::Running(w) => Some(w),
                _ => None,
            },
            None => None,
        }
    }

    /// The entry of one identity.
    pub(crate) fn entry_ref(&self, work_id: &str) -> (r: Option<&Entry>)
        requires
            self.wf(),
        ensures
            match r {
                Some(e) => self@.contains_key(work_id@) && self@[work_id@] == e@,
                None => !self@.contains_key(work_id@),
            },
    {
        match self.find(work_id) {
            Some(i) => Some(&self.entries[i]),
            None => None,
        }
    }

    /// The public projection of one Work's durable entry.
    pub fn entry_snapshot(&self, work_id: &str) -> (r: Option<RunSnapshot>)
        requires
            self.wf(),
        ensures
            match r {
                Some(v) => self@.contains_key(work_id@) && v@ == snapshot_of(self@[work_id@]),
                None => !self@.contains_key(work_id@),
            },
    {
        match self.find(work_id) {
            Some(i) => Some(snapshot(&self.entries[i])),
            None => None,
        }
    }

    /// The position where `id` belongs, and whether an entry already holds it there.
    fn position(&self, id: &str) -> (r: (usize, bool))
        requires
            self.wf(),
        ensures
            r.0 <= self.entries@.len(),
            forall|k: int| 0 <= k < r.0 ==> id_less((#[trigger] views(self.entries@)[k]).id(), id@),
            r.1 ==> r.0 < self.entries@.len() && views(self.entries@)[r.0 as int].id() == id@,
            !r.1 ==> forall|k: int|
                r.0 <= k < self.entries@.len() ==> id_less(id@, (#[trigger] views(self.entries@)[k]).id()),
    {
        let mut i: usize = 0;
        while i < self.entries.len() && less_than(self.entries[i].work_id().as_str(), id)
            invariant
                i <= self.entries@.len(),
                forall|k: int| 0 <= k < i ==> id_less((#[trigger] views(self.entries@)[k]).id(), id@),
            decreases self.entries.len() - i,
        {
            i = i + 1;
        }
        if i < self.entries.len() && same_text(self.entries[i].work_id().as_str(), id) {
            return (i, true);
        }
        proof {
            let s = views(self.entries@);
            if i < s.len() {
                lemma_less_total(s[i as int].id(), id@);
                assert forall|k: int| i <= k < s.len() implies id_less(id@, (#[trigger] s[k]).id()) by {
                    if k > i {
                        lemma_less_transitive(id@, s[i as int].id(), s[k].id());
                    }
                }
            }
        }
        (i, false)
    }

    /// Puts back the entry taken out at `i` for an in-place change.
    fn put_back(&mut self, i: usize, e: Entry, Ghost(before): Ghost<Seq<Entry>>)
        requires
            old(self).entries@ == before.remove(i as int),
            sorted(views(before)),
            i < before.len(),
            e@.id() == before[i as int]@.id(),
            old(self).wf() || true,
            forall|a: int, b: int|
                0 <= a < b < old(self).native_owned@.len() ==> (#[trigger] old(self).native_owned@[a])@
                    != (#[trigger] old(self).native_owned@[b])@,
        ensures
            final(self).wf(),
            final(self)@ == index_map(views(before)).insert(before[i as int]@.id(), e@),
            final(self).native_owned == old(self).native_owned,
            final(self).owned() == old(self).owned(),
            final(self).entries@ == before.update(i as int, e),
    {
        let ghost ev = e@;
        self.entries.insert(i, e);
        proof {
            lemma_replace(before, i as int, self.entries@[i as int]);
            assert(self.entries@ =~= before.update(i as int, e));
        }
    }

    /// The entries in identity order.
    pub(crate) closed spec fn rows(&self) -> Seq<Entry> {
        self.entries@
    }

    /// The number of entries.
    pub(crate) fn row_count(&self) -> (r: usize)
        ensures
            r == self.rows().len(),
    {
        self.entries.len()
    }

    /// The entry at one position in identity order.
    pub(crate) fn row(&self, i: usize) -> (r: &Entry)
        requires
            i < self.rows().len(),
        ensures
            *r == self.rows()[i as int],
    {
        &self.entries[i]
    }

    /// A well-formed store's rows are in identity order and are its map.
    pub(crate) proof fn lemma_rows(&self)
        requires
            self.wf(),
        ensures
            sorted(views(self.rows())),
            self@ == index_map(views(self.rows())),
    {
    }

    /// This store is `before` with its `i`th entry taken out for an in-place change.
    pub(crate) closed spec fn taken_from(&self, i: int, before: Seq<Entry>) -> bool {
        &&& self.entries@ == before.remove(i)
        &&& sorted(views(before))
        &&& 0 <= i < before.len()
        &&& forall|a: int, b: int|
            0 <= a < b < self.native_owned@.len() ==> (#[trigger] self.native_owned@[a])@
                != (#[trigger] self.native_owned@[b])@
    }

    /// Takes one Running owner out of the table for an in-place change.
    pub(crate) fn take_running(&mut self, work_id: &str) -> (r: Option<(usize, Running)>)
        requires
            old(self).wf(),
        ensures
            match r {
                Some((i, w)) => final(self).taken_from(i as int, old(self).rows())
                    && old(self).rows()[i as int] == Entry::Running(w)
                    && old(self)@ == index_map(views(old(self).rows()))
                    && running_of(old(self)@, work_id@) == Some(w@) && w@.work_id == work_id@
                    && final(self).owned() == old(self).owned(),
                None => *final(self) == *old(self) && running_of(old(self)@, work_id@) is None,
            },
    {
        let i = match self.find(work_id) {
            Some(i) => i,
            None => return None,
        };
        if let Entry::Running(_) = &self.entries[i] {
            proof {
                lemma_lookup(views(self.entries@), i as int);
            }
            let entry = self.entries.remove(i);
            match entry {
                Entry::Running(w) => Some((i, w)),
                _ => {
                    assert(false);
                    None
                },
            }
        } else {
            None
        }
    }

    /// Puts a changed Running owner back where `take_running` found it.
    pub(crate) fn put_running(&mut self, i: usize, w: Running, Ghost(before): Ghost<Seq<Entry>>)
        requires
            old(self).taken_from(i as int, before),
            w@.work_id == before[i as int]@.id(),
        ensures
            final(self).wf(),
            final(self)@ == index_map(views(before)).insert(w@.work_id, EntryView::Running(w@)),
            final(self).owned() == old(self).owned(),
    {
        self.put_back(i, Entry::Running(w), Ghost(before));
    }

    /// Contains protects Start idempotency before any new native runner can launch.
    pub fn contains(&self, work_id: &str) -> (r: bool)
        requires
            self.wf(),
        ensures
            r == self@.contains_key(work_id@),
    {
        self.find(work_id).is_some()
    }

    /// IsRemote distinguishes Account-owned Work from desktop-local Work across retries.
    pub fn is_remote(&self, work_id: &str) -> (r: Option<bool>)
        requires
            self.wf(),
        ensures
            r == (if self@.contains_key(work_id@) {
                Some(self@[work_id@].remote())
            } else {
                None::<bool>
            }),
    {
        match self.find(work_id) {
            Some(i) => Some(self.entries[i].remote()),
            None => None,
        }
    }

    /// MarkRemote upgrades only an Account-proven legacy Work; every unrelated local Work stays local.
    pub fn mark_remote(&mut self, work_id: &str) -> (r: bool)
        requires
            old(self).wf(),
        ensures
            final(self).wf(),
            final(self).owned() == old(self).owned(),
            r == old(self)@.contains_key(work_id@),
            r ==> final(self)@ == old(self)@.insert(work_id@, old(self)@[work_id@].with_remote(true)),
            !r ==> final(self)@ == old(self)@,
    {
        self.set_remote(work_id, true)
    }

    /// UnmarkRemote rolls back an upgrade whose durable write failed.
    pub fn unmark_remote(&mut self, work_id: &str) -> (r: bool)
        requires
            old(self).wf(),
        ensures
            final(self).wf(),
            final(self).owned() == old(self).owned(),
            r == old(self)@.contains_key(work_id@),
            r ==> final(self)@ == old(self)@.insert(work_id@, old(self)@[work_id@].with_remote(false)),
            !r ==> final(self)@ == old(self)@,
    {
        self.set_remote(work_id, false)
    }

    fn set_remote(&mut self, work_id: &str, remote: bool) -> (r: bool)
        requires
            old(self).wf(),
        ensures
            final(self).wf(),
            final(self).owned() == old(self).owned(),
            r == old(self)@.contains_key(work_id@),
            r ==> final(self)@ == old(self)@.insert(work_id@, old(self)@[work_id@].with_remote(remote)),
            !r ==> final(self)@ == old(self)@,
    {
        let i = match self.find(work_id) {
            Some(i) => i,
            None => return false,
        };
        let ghost before = self.entries@;
        let entry = self.entries.remove(i);
        let entry = match entry {
            Entry::Running(mut w) => {
                w.remote = remote;
                Entry::Running(w)
            },
            Entry::ArtifactPending(mut w) => {
                w.remote = remote;
                Entry::ArtifactPending(w)
            },
            Entry::Done(mut w) => {
                w.remote = remote;
                Entry::Done(w)
            },
            Entry::Stopped(mut w) => {
                w.remote = remote;
                Entry::Stopped(w)
            },
        };
        self.put_back(i, entry, Ghost(before));
        true
    }

    /// InsertRunning publishes one owner only after its workspace and identity are complete.
    pub fn insert_running(&mut self, running: Running)
        requires
            old(self).wf(),
        ensures
            final(self).wf(),
            final(self).owned() == old(self).owned(),
            final(self)@ == old(self)@.insert(running@.work_id, EntryView::Running(running@)),
    {
        let (i, found) = self.position(running.work_id.as_str());
        let ghost before = self.entries@;
        if found {
            let _ = self.entries.remove(i);
            self.put_back(i, Entry::Running(running), Ghost(before));
        } else {
            let e = Entry::Running(running);
            let ghost ev = e@;
            self.entries.insert(i, e);
            proof {
                assert(views(self.entries@) =~= views(before).insert(i as int, ev));
                lemma_insert(views(before), i as int, ev);
            }
        }
    }

    /// RemoveRunning rolls back an admission whose durable write failed before launch.
    pub fn remove_running(&mut self, work_id: &str)
        requires
            old(self).wf(),
        ensures
            final(self).wf(),
            final(self).owned() == old(self).owned(),
            running_of(old(self)@, work_id@) is Some ==> final(self)@ == old(self)@.remove(work_id@),
            running_of(old(self)@, work_id@) is None ==> final(self)@ == old(self)@,
    {
        if let Some(i) = self.find(work_id) {
            if let Entry::Running(_) = &self.entries[i] {
                let ghost before = self.entries@;
                let _ = self.entries.remove(i);
                proof {
                    assert(views(self.entries@) =~= views(before).remove(i as int));
                    lemma_remove(views(before), i as int);
                }
            }
        }
    }

    /// The index of one identity among the natively owned Works.
    fn owned_index(&self, work_id: &str) -> (r: Option<usize>)
        ensures
            match r {
                Some(i) => i < self.native_owned@.len() && self.native_owned@[i as int]@ == work_id@,
                None => forall|k: int|
                    0 <= k < self.native_owned@.len() ==> (#[trigger] self.native_owned@[k])@ != work_id@,
            },
    {
        let mut i: usize = 0;
        while i < self.native_owned.len()
            invariant
                i <= self.native_owned@.len(),
                forall|k: int| 0 <= k < i ==> (#[trigger] self.native_owned@[k])@ != work_id@,
            decreases self.native_owned.len() - i,
        {
            if same_text(self.native_owned[i].as_str(), work_id) {
                return Some(i);
            }
            i = i + 1;
        }
        None
    }

    /// Whether this process physically holds one Work's Agent.
    pub fn is_native_owned(&self, work_id: &str) -> (r: bool)
        ensures
            r == self.owned().contains(work_id@),
    {
        match self.owned_index(work_id) {
            Some(i) => true,
            None => false,
        }
    }

    /// NativeOwned changes only the ephemeral proof that this process holds one AgentRun.
    pub fn set_native_owned(&mut self, work_id: &str, owned: bool) -> (r: bool)
        requires
            old(self).wf(),
        ensures
            final(self).wf(),
            final(self)@ == old(self)@,
            owned ==> final(self).owned() == old(self).owned().insert(work_id@),
            !owned ==> final(self).owned() == old(self).owned().remove(work_id@),
            r == (owned != old(self).owned().contains(work_id@)),
    {
        let found = self.owned_index(work_id);
        let ghost before = self.native_owned@;
        if let Some(i) = found {
            assert(self.owned().contains(work_id@));
            if owned {
                assert(self.owned().insert(work_id@) =~= self.owned());
                return false;
            }
            let _ = self.native_owned.remove(i);
            proof {
                assert forall|a: int, b: int|
                    0 <= a < b < self.native_owned@.len() implies (#[trigger] self.native_owned@[a])@
                    != (#[trigger] self.native_owned@[b])@ by {
                    let a2 = if a < i { a } else { a + 1 };
                    let b2 = if b < i { b } else { b + 1 };
                    assert(self.native_owned@[a] == before[a2]);
                    assert(self.native_owned@[b] == before[b2]);
                }
                assert forall|k: Seq<char>| #[trigger] self.owned().contains(k) <==> old(
                    self,
                ).owned().remove(work_id@).contains(k) by {
                    if self.owned().contains(k) {
                        let j = choose|j: int|
                            0 <= j < self.native_owned@.len() && (#[trigger] self.native_owned@[j])@ == k;
                        let j2 = if j < i { j } else { j + 1 };
                        assert(self.native_owned@[j] == before[j2]);
                    }
                    if old(self).owned().contains(k) && k != work_id@ {
                        let j = choose|j: int| 0 <= j < before.len() && (#[trigger] before[j])@ == k;
                        assert(j != i);
                        let j2 = if j < i { j } else { j - 1 };
                        assert(self.native_owned@[j2] == before[j]);
                    }
                }
                assert(self.owned() =~= old(self).owned().remove(work_id@));
            }
            true
        } else {
            assert(!self.owned().contains(work_id@));
            if !owned {
                assert(self.owned().remove(work_id@) =~= self.owned());
                return false;
            }
            self.native_owned.push(work_id.to_owned());
            proof {
                assert forall|k: Seq<char>| #[trigger] self.owned().contains(k) <==> old(
                    self,
                ).owned().insert(work_id@).contains(k) by {
                    if self.owned().contains(k) {
                        let j = choose|j: int|
                            0 <= j < self.native_owned@.len() && (#[trigger] self.native_owned@[j])@ == k;
                        if j < before.len() {
                            assert(self.native_owned@[j] == before[j]);
                        }
                    }
                    if old(self).owned().contains(k) {
                        let j = choose|j: int| 0 <= j < before.len() && (#[trigger] before[j])@ == k;
                        assert(self.native_owned@[j] == before[j]);
                    }
                    if k == work_id@ {
                        assert(self.native_owned@[before.len() as int]@ == k);
                    }
                }
                assert(self.owned() =~= old(self).owned().insert(work_id@));
            }
            true
        }
    }
}


/// The progress a replayed Provider action leaves behind, or why the replay is refused.
pub open spec fn progress_step(
    previous: Option<ProgressView>,
    index: int,
    update: Seq<char>,
) -> Result<Option<ProgressView>, Seq<char>> {
    let sequence: int = match previous {
        Some(p) => (p.sequence as usize) as int,
        None => 0,
    };
    if index + 1 < sequence {
        Ok(None)
    } else if index + 1 == sequence {
        if previous matches Some(p) && p.text == update {
            Ok(None)
        } else {
            Err("Provider progress changed during recovery"@)
        }
    } else if index != sequence {
        Err("Provider progress order changed during recovery"@)
    } else {
        Ok(Some(ProgressView { sequence: (index + 1) as u64, text: update }))
    }
}

/// The replay decision for one Provider action against the recorded progress.
fn progress_outcome(previous: &Option<RunProgress>, index: usize, update: String) -> (r: Result<
    Option<RunProgress>,
    String,
>)
    requires
        index < usize::MAX,
        index + 1 <= u64::MAX,
    ensures
        match progress_step(opt_progress(*previous), index as int, update@) {
            Ok(Some(p)) => r matches Ok(Some(q)) && q@ == p,
            Ok(None) => r matches Ok(None),
            Err(e) => r matches Err(m) && m@ == e,
        },
{
    let sequence: usize = match previous {
        Some(p) => p.sequence as usize,
        None => 0,
    };
    if sequence > 0 && index < sequence - 1 {
        Ok(None)
    } else if sequence > 0 && index == sequence - 1 {
        let same = match previous {
            Some(p) => same_text(p.text.as_str(), update.as_str()),
            None => false,
        };
        if same {
            Ok(None)
        } else {
            Err("Provider progress changed during recovery".to_owned())
        }
    } else if index != sequence {
        Err("Provider progress order changed during recovery".to_owned())
    } else {
        Ok(Some(RunProgress { sequence: (index + 1) as u64, text: update }))
    }
}

impl WorkStore {
    /// StopAuthority reports the owner-Stop signal of the addressed Running Work.
    pub fn stop_authority(&self, work_id: &str) -> (r: Option<bool>)
        requires
            self.wf(),
        ensures
            r == (match running_of(self@, work_id@) {
                Some(w) => Some(w.stop_requested),
                None => None::<bool>,
            }),
    {
        match self.find(work_id) {
            Some(i) => match &self.entries[i] {
                Entry::Running(w) => Some(w.stop_requested),
                _ => None,
            },
            None => None,
        }
    }

    /// TurnStopAuthority reports the current physical turn's internal interruption signal.
    pub fn turn_stop_authority(&self, work_id: &str) -> (r: Option<bool>)
        requires
            self.wf(),
        ensures
            r == (match running_of(self@, work_id@) {
                Some(w) => Some(w.turn_stop_requested),
                None => None::<bool>,
            }),
    {
        match self.find(work_id) {
            Some(i) => match &self.entries[i] {
                Entry::Running(w) => Some(w.turn_stop_requested),
                _ => None,
            },
            None => None,
        }
    }

    /// RequestStop raises the owner's Stop on one Running Work.
    pub fn request_stop(&mut self, work_id: &str) -> (r: bool)
        requires
            old(self).wf(),
        ensures
            final(self).wf(),
            final(self).owned() == old(self).owned(),
            r == running_of(old(self)@, work_id@) is Some,
            match running_of(old(self)@, work_id@) {
                Some(w) => final(self)@ == with_running(
                    old(self)@,
                    work_id@,
                    RunningView { stop_requested: true, ..w },
                ),
                None => final(self)@ == old(self)@,
            },
    {
        let i = match self.find(work_id) {
            Some(i) => i,
            None => return false,
        };
        let ghost before = self.entries@;
        let entry = self.entries.remove(i);
        match entry {
            Entry::Running(mut w) => {
                w.stop_requested = true;
                self.put_back(i, Entry::Running(w), Ghost(before));
                true
            },
            other => {
                self.put_back(i, other, Ghost(before));
                proof {
                    assert(self.entries@ =~= before);
                }
                false
            },
        }
    }

    /// RequestTurnStop asks only the current physical turn of one Running Work to end.
    pub fn request_turn_stop(&mut self, work_id: &str) -> (r: bool)
        requires
            old(self).wf(),
        ensures
            final(self).wf(),
            final(self).owned() == old(self).owned(),
            r == running_of(old(self)@, work_id@) is Some,
            match running_of(old(self)@, work_id@) {
                Some(w) => final(self)@ == with_running(
                    old(self)@,
                    work_id@,
                    RunningView { turn_stop_requested: true, ..w },
                ),
                None => final(self)@ == old(self)@,
            },
    {
        let i = match self.find(work_id) {
            Some(i) => i,
            None => return false,
        };
        let ghost before = self.entries@;
        let entry = self.entries.remove(i);
        match entry {
            Entry::Running(mut w) => {
                w.turn_stop_requested = true;
                self.put_back(i, Entry::Running(w), Ghost(before));
                true
            },
            other => {
                self.put_back(i, other, Ghost(before));
                proof {
                    assert(self.entries@ =~= before);
                }
                false
            },
        }
    }

    /// NeedsAttention distinguishes a parked Running owner from an executing turn.
    pub fn needs_attention(&self, work_id: &str) -> (r: bool)
        requires
            self.wf(),
        ensures
            r == (running_of(self@, work_id@) matches Some(w) && w.attention),
    {
        match self.find(work_id) {
            Some(i) => match &self.entries[i] {
                Entry::Running(w) => w.attention,
                _ => false,
            },
            None => false,
        }
    }

    /// RepairBudgetSpent reports that this Work has already replaced as many runners as it may.
    pub fn repair_budget_spent(&self, work_id: &str) -> (r: bool)
        requires
            self.wf(),
        ensures
            r == (running_of(self@, work_id@) matches Some(w) && w.repairs >= MAX_REPAIRS),
    {
        match self.find(work_id) {
            Some(i) => match &self.entries[i] {
                Entry::Running(w) => w.repairs >= MAX_REPAIRS,
                _ => false,
            },
            None => false,
        }
    }

    /// ProgressSequence resumes a new native continuation after the last public Provider action.
    pub fn progress_sequence(&self, work_id: &str) -> (r: usize)
        requires
            self.wf(),
        ensures
            r == (match running_of(self@, work_id@) {
                Some(w) => match w.progress {
                    Some(p) => p.sequence as usize,
                    None => 0usize,
                },
                None => 0usize,
            }),
    {
        match self.find(work_id) {
            Some(i) => match &self.entries[i] {
                Entry::Running(w) => match &w.progress {
                    Some(p) => p.sequence as usize,
                    None => 0,
                },
                _ => 0,
            },
            None => 0,
        }
    }

    /// Progress returns the one durable fact needed to roll back a failed replacement.
    pub fn progress(&self, work_id: &str) -> (r: Option<RunProgress>)
        requires
            self.wf(),
        ensures
            opt_progress(r) == (match running_of(self@, work_id@) {
                Some(w) => w.progress,
                None => None,
            }),
    {
        match self.find(work_id) {
            Some(i) => match &self.entries[i] {
                Entry::Running(w) => copy_progress(&w.progress),
                _ => None,
            },
            None => None,
        }
    }

    /// ReplaceProgress keeps the latest actionable Provider fact and its monotonic replay proof.
    pub fn replace_progress(&mut self, work_id: &str, index: usize, update: String) -> (r: Result<
        bool,
        String,
    >)
        requires
            old(self).wf(),
            index < usize::MAX,
            index + 1 <= u64::MAX,
        ensures
            final(self).wf(),
            final(self).owned() == old(self).owned(),
            match running_of(old(self)@, work_id@) {
                None => r == Ok::<bool, String>(false) && final(self)@ == old(self)@,
                Some(w) => match progress_step(w.progress, index as int, update@) {
                    Ok(Some(p)) => r == Ok::<bool, String>(true) && final(self)@ == with_running(
                        old(self)@,
                        work_id@,
                        RunningView { progress: Some(p), ..w },
                    ),
                    Ok(None) => r == Ok::<bool, String>(false) && final(self)@ == old(self)@,
                    Err(e) => (r matches Err(m) && m@ == e) && final(self)@ == old(self)@,
                },
            },
    {
        let i = match self.find(work_id) {
            Some(i) => i,
            None => return Ok(false),
        };
        let ghost before = self.entries@;
        let entry = self.entries.remove(i);
        let mut w = match entry {
            Entry::Running(w) => w,
            other => {
                self.put_back(i, other, Ghost(before));
                proof {
                    assert(self.entries@ =~= before);
                }
                return Ok(false);
            },
        };
        let ghost wv = w@;
        let step = progress_outcome(&w.progress, index, update);
        match step {
            Ok(Some(p)) => {
                w.progress = Some(p);
                self.put_back(i, Entry::Running(w), Ghost(before));
                Ok(true)
            },
            Ok(None) => {
                self.put_back(i, Entry::Running(w), Ghost(before));
                proof {
                    assert(self.entries@ =~= before);
                }
                Ok(false)
            },
            Err(e) => {
                self.put_back(i, Entry::Running(w), Ghost(before));
                proof {
                    assert(self.entries@ =~= before);
                }
                Err(e)
            },
        }
    }

    /// RollbackProgress restores the one prior fact when its durable replacement failed.
    pub fn rollback_progress(&mut self, work_id: &str, progress: Option<RunProgress>)
        requires
            old(self).wf(),
        ensures
            final(self).wf(),
            final(self).owned() == old(self).owned(),
            match running_of(old(self)@, work_id@) {
                Some(w) => final(self)@ == with_running(
                    old(self)@,
                    work_id@,
                    RunningView { progress: opt_progress(progress), ..w },
                ),
                None => final(self)@ == old(self)@,
            },
    {
        let i = match self.find(work_id) {
            Some(i) => i,
            None => return,
        };
        let ghost before = self.entries@;
        let entry = self.entries.remove(i);
        match entry {
            Entry::Running(mut w) => {
                w.progress = progress;
                self.put_back(i, Entry::Running(w), Ghost(before));
            },
            other => {
                self.put_back(i, other, Ghost(before));
                proof {
                    assert(self.entries@ =~= before);
                }
            },
        }
    }

    /// Tokens returns the one durable count needed to roll back a failed replacement.
    pub fn tokens(&self, work_id: &str) -> (r: Option<u64>)
        requires
            self.wf(),
        ensures
            r == (match running_of(self@, work_id@) {
                Some(w) => w.tokens,
                None => None,
            }),
    {
        match self.find(work_id) {
            Some(i) => match &self.entries[i] {
                Entry::Running(w) => w.tokens,
                _ => None,
            },
            None => None,
        }
    }

    /// ReplaceTokens keeps the public count monotonic so journal replay can never regress it.
    pub fn replace_tokens(&mut self, work_id: &str, total: u64) -> (r: bool)
        requires
            old(self).wf(),
        ensures
            final(self).wf(),
            final(self).owned() == old(self).owned(),
            match running_of(old(self)@, work_id@) {
                None => !r && final(self)@ == old(self)@,
                Some(w) => r == !(w.tokens matches Some(c) && c >= total) && (if r {
                    final(self)@ == with_running(
                        old(self)@,
                        work_id@,
                        RunningView { tokens: Some(total), ..w },
                    )
                } else {
                    final(self)@ == old(self)@
                }),
            },
    {
        let i = match self.find(work_id) {
            Some(i) => i,
            None => return false,
        };
        let ghost before = self.entries@;
        let entry = self.entries.remove(i);
        match entry {
            Entry::Running(mut w) => {
                let stale = match w.tokens {
                    Some(current) => current >= total,
                    None => false,
                };
                if stale {
                    self.put_back(i, Entry::Running(w), Ghost(before));
                    proof {
                        assert(self.entries@ =~= before);
                    }
                    return false;
                }
                w.tokens = Some(total);
                self.put_back(i, Entry::Running(w), Ghost(before));
                true
            },
            other => {
                self.put_back(i, other, Ghost(before));
                proof {
                    assert(self.entries@ =~= before);
                }
                false
            },
        }
    }

    /// RollbackTokens restores the prior count when its durable replacement failed.
    pub fn rollback_tokens(&mut self, work_id: &str, tokens: Option<u64>)
        requires
            old(self).wf(),
        ensures
            final(self).wf(),
            final(self).owned() == old(self).owned(),
            match running_of(old(self)@, work_id@) {
                Some(w) => final(self)@ == with_running(
                    old(self)@,
                    work_id@,
                    RunningView { tokens, ..w },
                ),
                None => final(self)@ == old(self)@,
            },
    {
        let i = match self.find(work_id) {
            Some(i) => i,
            None => return,
        };
        let ghost before = self.entries@;
        let entry = self.entries.remove(i);
        match entry {
            Entry::Running(mut w) => {
                w.tokens = tokens;
                self.put_back(i, Entry::Running(w), Ghost(before));
            },
            other => {
                self.put_back(i, other, Ghost(before));
                proof {
                    assert(self.entries@ =~= before);
                }
            },
        }
    }

    /// Model returns the one durable identity needed to roll back a failed replacement.
    pub fn model(&self, work_id: &str) -> (r: Option<String>)
        requires
            self.wf(),
        ensures
            opt_text(r) == (match running_of(self@, work_id@) {
                Some(w) => w.model,
                None => None,
            }),
    {
        match self.find(work_id) {
            Some(i) => match &self.entries[i] {
                Entry::Running(w) => copy_text(&w.model),
                _ => None,
            },
            None => None,
        }
    }

    /// ReplaceModel records the Provider-reported executing model exactly as announced.
    pub fn replace_model(&mut self, work_id: &str, model: String) -> (r: bool)
        requires
            old(self).wf(),
        ensures
            final(self).wf(),
            final(self).owned() == old(self).owned(),
            match running_of(old(self)@, work_id@) {
                None => !r && final(self)@ == old(self)@,
                Some(w) => r == (w.model != Some(model@)) && (if r {
                    final(self)@ == with_running(
                        old(self)@,
                        work_id@,
                        RunningView { model: Some(model@), ..w },
                    )
                } else {
                    final(self)@ == old(self)@
                }),
            },
    {
        let i = match self.find(work_id) {
            Some(i) => i,
            None => return false,
        };
        let ghost before = self.entries@;
        let entry = self.entries.remove(i);
        match entry {
            Entry::Running(mut w) => {
                let same = match &w.model {
                    Some(current) => same_text(current.as_str(), model.as_str()),
                    None => false,
                };
                if same {
                    self.put_back(i, Entry::Running(w), Ghost(before));
                    proof {
                        assert(self.entries@ =~= before);
                    }
                    return false;
                }
                w.model = Some(model);
                self.put_back(i, Entry::Running(w), Ghost(before));
                true
            },
            other => {
                self.put_back(i, other, Ghost(before));
                proof {
                    assert(self.entries@ =~= before);
                }
                false
            },
        }
    }

    /// RollbackModel restores the prior identity when its durable replacement failed.
    pub fn rollback_model(&mut self, work_id: &str, model: Option<String>)
        requires
            old(self).wf(),
        ensures
            final(self).wf(),
            final(self).owned() == old(self).owned(),
            match running_of(old(self)@, work_id@) {
                Some(w) => final(self)@ == with_running(
                    old(self)@,
                    work_id@,
                    RunningView { model: opt_text(model), ..w },
                ),
                None => final(self)@ == old(self)@,
            },
    {
        let i = match self.find(work_id) {
            Some(i) => i,
            None => return,
        };
        let ghost before = self.entries@;
        let entry = self.entries.remove(i);
        match entry {
            Entry::Running(mut w) => {
                w.model = model;
                self.put_back(i, Entry::Running(w), Ghost(before));
            },
            other => {
                self.put_back(i, other, Ghost(before));
                proof {
                    assert(self.entries@ =~= before);
                }
            },
        }
    }

    /// MarkLaunched durably closes launch admission; the launch also delivers an armed follow-up.
    pub fn mark_launched(&mut self, work_id: &str) -> (r: bool)
        requires
            old(self).wf(),
        ensures
            final(self).wf(),
            final(self).owned() == old(self).owned(),
            match running_of(old(self)@, work_id@) {
                None => !r && final(self)@ == old(self)@,
                Some(w) => r == !w.launched && (if r {
                    final(self)@ == with_running(
                        old(self)@,
                        work_id@,
                        RunningView {
                            launched: true,
                            steer_delivered: w.steer_delivered || w.steering,
                            ..w
                        },
                    )
                } else {
                    final(self)@ == old(self)@
                }),
            },
    {
        let i = match self.find(work_id) {
            Some(i) => i,
            None => return false,
        };
        let ghost before = self.entries@;
        let entry = self.entries.remove(i);
        match entry {
            Entry::Running(mut w) => {
                if w.launched {
                    self.put_back(i, Entry::Running(w), Ghost(before));
                    proof {
                        assert(self.entries@ =~= before);
                    }
                    return false;
                }
                w.launched = true;
                w.steer_delivered = w.steer_delivered || w.steering;
                self.put_back(i, Entry::Running(w), Ghost(before));
                true
            },
            other => {
                self.put_back(i, other, Ghost(before));
                proof {
                    assert(self.entries@ =~= before);
                }
                false
            },
        }
    }

    /// RestoreUnlaunched keeps memory aligned with disk when launch evidence cannot commit.
    pub fn restore_unlaunched(&mut self, work_id: &str)
        requires
            old(self).wf(),
        ensures
            final(self).wf(),
            final(self).owned() == old(self).owned(),
            match running_of(old(self)@, work_id@) {
                Some(w) => final(self)@ == with_running(
                    old(self)@,
                    work_id@,
                    RunningView { launched: false, ..w },
                ),
                None => final(self)@ == old(self)@,
            },
    {
        let i = match self.find(work_id) {
            Some(i) => i,
            None => return,
        };
        let ghost before = self.entries@;
        let entry = self.entries.remove(i);
        match entry {
            Entry::Running(mut w) => {
                w.launched = false;
                self.put_back(i, Entry::Running(w), Ghost(before));
            },
            other => {
                self.put_back(i, other, Ghost(before));
                proof {
                    assert(self.entries@ =~= before);
                }
            },
        }
    }
}

/// The verified result one finished Running owner becomes.
pub open spec fn done_from(
    w: RunningView,
    answer: Seq<char>,
    kind: ResultKind,
    run: Option<Seq<char>>,
    native_session: Seq<char>,
    manifest: Seq<FileView>,
    ended_at: Option<u64>,
) -> DoneView {
    DoneView {
        remote: w.remote,
        work_id: w.work_id,
        session: Some(w.session),
        answer,
        kind,
        run,
        native_session,
        manifest,
        freeze_root: if kind == ResultKind::Artifact {
            Some(w.freeze_root)
        } else {
            None
        },
        servable: true,
        started_at: w.started_at,
        ended_at,
    }
}

/// Whether a terminal end may replace this entry: a Running Work only with owner authority or
/// because its runner already ended, and a Work reverifying its bytes always.
pub open spec fn may_stop(e: EntryView, owner: bool) -> bool {
    ||| (e matches EntryView::Running(w) && (w.stop_requested || !owner))
    ||| e is ArtifactPending
}

/// The terminal end that replaces a stoppable entry.
pub open spec fn stopped_from(e: EntryView, owner: bool, reason: Seq<char>, ended_at: Option<u64>) -> StoppedView {
    match e {
        EntryView::Running(w) => StoppedView {
            remote: w.remote,
            work_id: w.work_id,
            session: Some(w.session),
            freeze_root: Some(w.freeze_root),
            started_at: w.started_at,
            ended_at,
            owner,
            reason,
        },
        EntryView::ArtifactPending(w) => StoppedView {
            remote: w.remote,
            work_id: w.work_id,
            session: w.session,
            freeze_root: Some(w.freeze_root),
            started_at: w.started_at,
            ended_at,
            owner,
            reason,
        },
        _ => arbitrary(),
    }
}

/// The verified result a reverified pending artifact becomes.
pub open spec fn promoted(w: PendingView, ended_at: Option<u64>) -> DoneView {
    DoneView {
        remote: w.remote,
        work_id: w.work_id,
        session: w.session,
        answer: w.answer,
        kind: w.kind,
        run: Some(w.run),
        native_session: w.native_session,
        manifest: w.manifest,
        freeze_root: Some(w.freeze_root),
        servable: true,
        started_at: w.started_at,
        ended_at,
    }
}

/// A terminal entry whose session tree retention already removed.
pub open spec fn reaped_by(e: EntryView, reaped: Seq<Seq<char>>) -> bool {
    match e {
        EntryView::Done(w) => w.session matches Some(p) && reaped.contains(p),
        EntryView::Stopped(w) => w.session matches Some(p) && reaped.contains(p),
        _ => false,
    }
}

impl WorkStore {
    /// Every identity maps to the entry that carries it.
    pub proof fn lemma_keys(&self)
        requires
            self.wf(),
        ensures
            forall|k: Seq<char>| self@.contains_key(k) ==> (#[trigger] self@[k]).id() == k,
    {
        let s = views(self.entries@);
        assert forall|k: Seq<char>| self@.contains_key(k) implies (#[trigger] self@[k]).id() == k by {
            let j = choose|j: int| 0 <= j < s.len() && (#[trigger] s[j]).id() == k;
            lemma_lookup(s, j);
        }
    }

    /// Replaces the entry at `i` by one carrying the same identity.
    fn replace_at(&mut self, i: usize, e: Entry) -> (r: Entry)
        requires
            old(self).wf(),
            i < old(self).entries@.len(),
            e@.id() == old(self).entries@[i as int]@.id(),
        ensures
            final(self).wf(),
            final(self).owned() == old(self).owned(),
            r == old(self).entries@[i as int],
            final(self)@ == old(self)@.insert(e@.id(), e@),
    {
        let ghost before = self.entries@;
        proof {
            lemma_lookup(views(before), i as int);
        }
        let previous = self.entries.remove(i);
        self.put_back(i, e, Ghost(before));
        previous
    }

    /// Finish replaces Running with one verified result but does not publish before durable save.
    pub fn finish(
        &mut self,
        work_id: &str,
        answer: String,
        kind: ResultKind,
        run: Option<String>,
        native_session: String,
        manifest: Vec<DeliveryFile>,
        ended_at: Option<u64>,
    ) -> (r: Option<Running>)
        requires
            old(self).wf(),
        ensures
            final(self).wf(),
            final(self).owned() == old(self).owned(),
            match running_of(old(self)@, work_id@) {
                Some(w) => (r matches Some(prior) && prior@ == w) && final(self)@ == old(self)@.insert(
                    work_id@,
                    EntryView::Done(
                        done_from(
                            w,
                            answer@,
                            kind,
                            opt_text(run),
                            native_session@,
                            files(manifest@),
                            ended_at,
                        ),
                    ),
                ),
                None => r is None && final(self)@ == old(self)@,
            },
    {
        let i = match self.find(work_id) {
            Some(i) => i,
            None => return None,
        };
        let (session, freeze_root, remote, id, started_at) = match &self.entries[i] {
            Entry::Running(w) => (
                w.session.clone(),
                w.freeze_root.clone(),
                w.remote,
                w.work_id.clone(),
                w.started_at,
            ),
            _ => return None,
        };
        let done = DoneWork {
            remote,
            work_id: id,
            session: Some(session),
            answer,
            kind,
            run,
            native_session,
            manifest,
            freeze_root: if kind == ResultKind::Artifact {
                Some(freeze_root)
            } else {
                None
            },
            servable: true,
            started_at,
            ended_at,
        };
        match self.replace_at(i, Entry::Done(done)) {
            Entry::Running(prior) => Some(prior),
            _ => {
                assert(false);
                None
            },
        }
    }

    /// RestoreRunning reverses only an uncommitted Done so success cannot outrun disk.
    pub fn restore_running(&mut self, running: Running)
        requires
            old(self).wf(),
        ensures
            final(self).wf(),
            final(self).owned() == old(self).owned(),
            final(self)@ == old(self)@.insert(running@.work_id, EntryView::Running(running@)),
    {
        self.insert_running(running);
    }

    /// MarkStopped prepares one terminal end while retaining the previous entry for save rollback;
    /// only a runner that already ended may skip owner authority, and its end is durably recorded
    /// as not the owner's.
    pub fn mark_stopped(&mut self, work_id: &str, owner: bool, reason: String, ended_at: Option<u64>) -> (r:
        Option<Entry>)
        requires
            old(self).wf(),
        ensures
            final(self).wf(),
            final(self).owned() == old(self).owned(),
            if old(self)@.contains_key(work_id@) && may_stop(old(self)@[work_id@], owner) {
                (r matches Some(prior) && prior@ == old(self)@[work_id@]) && final(self)@ == old(
                    self,
                )@.insert(
                    work_id@,
                    EntryView::Stopped(stopped_from(old(self)@[work_id@], owner, reason@, ended_at)),
                )
            } else {
                r is None && final(self)@ == old(self)@
            },
    {
        let i = match self.find(work_id) {
            Some(i) => i,
            None => return None,
        };
        let stopped = match &self.entries[i] {
            Entry::Running(w) => {
                if !(w.stop_requested || !owner) {
                    return None;
                }
                StoppedWork {
                    remote: w.remote,
                    work_id: w.work_id.clone(),
                    session: Some(w.session.clone()),
                    freeze_root: Some(w.freeze_root.clone()),
                    started_at: w.started_at,
                    ended_at,
                    owner,
                    reason,
                }
            },
            Entry::ArtifactPending(w) => StoppedWork {
                remote: w.remote,
                work_id: w.work_id.clone(),
                session: copy_text(&w.session),
                freeze_root: Some(w.freeze_root.clone()),
                started_at: w.started_at,
                ended_at,
                owner,
                reason,
            },
            _ => return None,
        };
        Some(self.replace_at(i, Entry::Stopped(stopped)))
    }

    /// RestoreEntry reverses an uncommitted terminal transition before public release.
    pub fn restore_entry(&mut self, work_id: &str, entry: Entry)
        requires
            old(self).wf(),
            entry@.id() == work_id@,
        ensures
            final(self).wf(),
            final(self).owned() == old(self).owned(),
            final(self)@ == old(self)@.insert(work_id@, entry@),
    {
        let (i, found) = self.position(work_id);
        let ghost before = self.entries@;
        if found {
            let _ = self.replace_at(i, entry);
        } else {
            let ghost ev = entry@;
            self.entries.insert(i, entry);
            proof {
                assert(views(self.entries@) =~= views(before).insert(i as int, ev));
                lemma_insert(views(before), i as int, ev);
            }
        }
    }

    /// TerminalPaths exposes only private trees whose Done, owner Stopped, or Failed truth Account
    /// already owns.
    pub fn terminal_paths(&self, work_id: &str) -> (r: Option<(Option<String>, Option<String>)>)
        requires
            self.wf(),
        ensures
            match r {
                Some((session, freeze)) => self@.contains_key(work_id@) && match self@[work_id@] {
                    EntryView::Done(w) => opt_text(session) == w.session && opt_text(freeze)
                        == w.freeze_root,
                    EntryView::Stopped(w) => opt_text(session) == w.session && opt_text(freeze)
                        == w.freeze_root,
                    _ => false,
                },
                None => !(self@.contains_key(work_id@) && (self@[work_id@] is Done
                    || self@[work_id@] is Stopped)),
            },
    {
        match self.find(work_id) {
            Some(i) => match &self.entries[i] {
                Entry::Done(w) => Some((copy_text(&w.session), copy_text(&w.freeze_root))),
                Entry::Stopped(w) => Some((copy_text(&w.session), copy_text(&w.freeze_root))),
                _ => None,
            },
            None => None,
        }
    }

    /// TakeTerminal removes only an Account-acknowledged terminal Work while retaining rollback truth.
    pub fn take_terminal(&mut self, work_id: &str) -> (r: Option<Entry>)
        requires
            old(self).wf(),
        ensures
            final(self).wf(),
            final(self).owned() == old(self).owned(),
            if old(self)@.contains_key(work_id@) && (old(self)@[work_id@] is Done
                || old(self)@[work_id@] is Stopped) {
                (r matches Some(prior) && prior@ == old(self)@[work_id@]) && final(self)@ == old(
                    self,
                )@.remove(work_id@)
            } else {
                r is None && final(self)@ == old(self)@
            },
    {
        let i = match self.find(work_id) {
            Some(i) => i,
            None => return None,
        };
        let terminal = match &self.entries[i] {
            Entry::Done(_) => true,
            Entry::Stopped(_) => true,
            _ => false,
        };
        if !terminal {
            return None;
        }
        let ghost before = self.entries@;
        let prior = self.entries.remove(i);
        proof {
            assert(views(self.entries@) =~= views(before).remove(i as int));
            lemma_remove(views(before), i as int);
        }
        Some(prior)
    }

    /// PromoteArtifact turns a pending artifact into Done once its frozen bytes verified again,
    /// and returns the pending entry so a failed save can put it back.
    pub fn promote_artifact(&mut self, work_id: &str, verified: bool, ended_at: Option<u64>) -> (r:
        Option<Entry>)
        requires
            old(self).wf(),
        ensures
            final(self).wf(),
            final(self).owned() == old(self).owned(),
            if verified && old(self)@.contains_key(work_id@) && old(self)@[work_id@] is ArtifactPending {
                (r matches Some(prior) && prior@ == old(self)@[work_id@]) && final(self)@ == old(
                    self,
                )@.insert(
                    work_id@,
                    EntryView::Done(promoted(old(self)@[work_id@]->ArtifactPending_0, ended_at)),
                )
            } else {
                r is None && final(self)@ == old(self)@
            },
    {
        if !verified {
            return None;
        }
        let i = match self.find(work_id) {
            Some(i) => i,
            None => return None,
        };
        let done = match &self.entries[i] {
            Entry::ArtifactPending(w) => DoneWork {
                remote: w.remote,
                work_id: w.work_id.clone(),
                session: copy_text(&w.session),
                answer: w.answer.clone(),
                kind: w.kind,
                run: Some(w.run.clone()),
                native_session: w.native_session.clone(),
                manifest: copy_files(&w.manifest),
                freeze_root: Some(w.freeze_root.clone()),
                servable: true,
                started_at: w.started_at,
                ended_at,
            },
            _ => return None,
        };
        Some(self.replace_at(i, Entry::Done(done)))
    }

    /// RetireReaped drops terminal entries whose expired session trees retention already removed,
    /// so the store never regrows around deleted workspaces.
    pub fn retire_reaped(&mut self, reaped: &Vec<String>) -> (r: bool)
        requires
            old(self).wf(),
        ensures
            final(self).wf(),
            final(self).owned() == old(self).owned(),
            final(self)@ == Map::new(
                |k: Seq<char>| old(self)@.contains_key(k) && !reaped_by(old(self)@[k], texts(reaped@)),
                |k: Seq<char>| old(self)@[k],
            ),
            r == exists|k: Seq<char>|
                old(self)@.contains_key(k) && #[trigger] reaped_by(old(self)@[k], texts(reaped@)),
    {
        let ghost gone = texts(reaped@);
        let ghost m = self@;
        let mut removed = false;
        let mut i: usize = 0;
        while i < self.entries.len()
            invariant
                self.wf(),
                self.owned() == old(self).owned(),
                m == old(self)@,
                gone == texts(reaped@),
                i <= self.entries@.len(),
                forall|k: Seq<char>| #[trigger] self@.contains_key(k) ==> m.contains_key(k) && self@[k] == m[k],
                forall|k: Seq<char>| m.contains_key(k) && !self@.contains_key(k) ==> #[trigger] reaped_by(m[k], gone),
                forall|j: int| 0 <= j < i ==> !reaped_by(#[trigger] views(self.entries@)[j], gone),
                removed == exists|k: Seq<char>| m.contains_key(k) && !(#[trigger] self@.contains_key(k)),
            decreases self.entries.len() - i,
        {
            let retire = match &self.entries[i] {
                Entry::Done(w) => match &w.session {
                    Some(p) => holds_name(reaped, p.as_str()),
                    None => false,
                },
                Entry::Stopped(w) => match &w.session {
                    Some(p) => holds_name(reaped, p.as_str()),
                    None => false,
                },
                _ => false,
            };
            let ghost s = views(self.entries@);
            proof {
                lemma_lookup(s, i as int);
            }
            if retire {
                let ghost k = s[i as int].id();
                let ghost prev = self@;
                let _ = self.entries.remove(i);
                proof {
                    assert(prev.contains_key(k));
                    assert(views(self.entries@) =~= s.remove(i as int));
                    lemma_remove(s, i as int);
                    assert(!self@.contains_key(k));
                    assert(self@ == prev.remove(k));
                    assert(m.contains_key(k) && !self@.contains_key(k));
                    assert forall|x: Seq<char>| #[trigger] self@.contains_key(x) implies m.contains_key(x)
                        && self@[x] == m[x] by {
                        assert(prev.contains_key(x));
                    }
                    assert forall|j: int| 0 <= j < i implies !reaped_by(
                        #[trigger] views(self.entries@)[j],
                        gone,
                    ) by {
                        assert(views(self.entries@)[j] == s[j]);
                    }
                }
                removed = true;
            } else {
                i = i + 1;
            }
        }
        proof {
            let s = views(self.entries@);
            assert forall|k: Seq<char>| #[trigger] self@.contains_key(k) <==> (m.contains_key(k)
                && !reaped_by(m[k], gone)) by {
                if self@.contains_key(k) {
                    let j = choose|j: int| 0 <= j < s.len() && (#[trigger] s[j]).id() == k;
                    lemma_lookup(s, j);
                }
            }
            assert(self@ =~= Map::new(
                |k: Seq<char>| m.contains_key(k) && !reaped_by(m[k], gone),
                |k: Seq<char>| m[k],
            ));
            if exists|k: Seq<char>| m.contains_key(k) && #[trigger] reaped_by(m[k], gone) {
                let k = choose|k: Seq<char>| m.contains_key(k) && #[trigger] reaped_by(m[k], gone);
                assert(!self@.contains_key(k));
            }
        }
        removed
    }
}

/// Whether a list of names holds this exact name.
fn holds_name(names: &Vec<String>, name: &str) -> (r: bool)
    ensures
        r == texts(names@).contains(name@),
{
    let mut q: usize = 0;
    while q < names.len()
        invariant
            q <= names@.len(),
            forall|t: int| 0 <= t < q ==> texts(names@)[t] != name@,
        decreases names.len() - q,
    {
        if same_text(names[q].as_str(), name) {
            assert(texts(names@)[q as int] == name@);
            return true;
        }
        q = q + 1;
    }
    false
}

} // verus!
