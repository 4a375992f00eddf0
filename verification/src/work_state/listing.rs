//! Listings name Work identities by their lifecycle, always in identity order.

use vstd::prelude::*;
use crate::provider::Provider;
use crate::text::same_text;
use super::model::{
    Entry, EntryView, failure_or_empty, snapshot_of, transport_shaped, transport_shaped_text,
};
use crate::state::RunSnapshot;
use super::order::{id_less, lemma_less_irreflexive};
use super::store::WorkStore;
use super::table::{index_map, lemma_lookup, sorted, views};
use crate::json::field_texts;
use crate::runtime::{field_named, field_value};

verus! {

/// `ids` names, in strictly increasing identity order, exactly the Works of `m` that satisfy `p`.
pub open spec fn lists(
    ids: Seq<Seq<char>>,
    m: Map<Seq<char>, EntryView>,
    p: spec_fn(EntryView) -> bool,
) -> bool {
    &&& forall|a: int, b: int| 0 <= a < b < ids.len() ==> id_less(#[trigger] ids[a], #[trigger] ids[b])
    &&& forall|k: Seq<char>| ids.contains(k) <==> (m.contains_key(k) && p(m[k]))
}

pub open spec fn names(v: Seq<String>) -> Seq<Seq<char>> {
    v.map_values(|s: String| s@)
}

pub open spec fn pair_names(v: Seq<(String, RunSnapshot)>) -> Seq<Seq<char>> {
    v.map_values(|p: (String, RunSnapshot)| p.0@)
}

/// A native Running owner, parked or executing.
pub open spec fn is_active(e: EntryView) -> bool {
    e is Running
}

fn is_running_entry(e: &Entry, _unused: &()) -> (r: bool)
    ensures
        r == is_active(e@),
{
    match e {
        Entry::Running(_) => true,
        _ => false,
    }
}

/// A Running owner parked for its creator.
pub open spec fn is_parked(e: EntryView) -> bool {
    e matches EntryView::Running(w) && w.attention
}

/// A Running owner whose turn executes.
pub open spec fn is_executing(e: EntryView) -> bool {
    e matches EntryView::Running(w) && !w.attention
}

/// A parked owner whose recorded failure a reconnect of the same session can repair.
pub open spec fn is_transport_parked(e: EntryView) -> bool {
    e matches EntryView::Running(w) && w.attention && transport_shaped_text(
        failure_or_empty(w.failure),
    )
}

/// An Account-owned result awaiting byte revalidation.
pub open spec fn is_remote_pending(e: EntryView) -> bool {
    e matches EntryView::ArtifactPending(w) && w.remote
}

/// An Account-owned verified result.
pub open spec fn is_remote_done(e: EntryView) -> bool {
    e matches EntryView::Done(w) && w.remote
}

/// A Work that still runs or reverifies its bytes.
pub open spec fn is_busy(e: EntryView) -> bool {
    e is Running || e is ArtifactPending
}

/// An Account-owned Work whose truth this process may publish: physically owned live truth,
/// durable parked truth, or terminal truth.
pub open spec fn is_remote_visible(e: EntryView, owned: Set<Seq<char>>) -> bool {
    match e {
        EntryView::Running(w) => w.remote && (w.attention || owned.contains(w.work_id)),
        EntryView::ArtifactPending(w) => w.remote && owned.contains(w.work_id),
        EntryView::Done(w) => w.remote,
        EntryView::Stopped(w) => w.remote,
    }
}

/// A Running Work that holds this Provider conversation and is not the excluded one.
pub open spec fn holds_session(
    e: EntryView,
    provider: Provider,
    native_session: Seq<char>,
    except: Option<Seq<char>>,
) -> bool {
    e matches EntryView::Running(w) && w.provider == provider && w.native_session == native_session
        && except != Some(w.work_id)
}

/// Whether an entry is a Running Work of `provider` that already holds this conversation: it
/// runs the bound native session, or its own stored input names the conversation (`held` pairs
/// each Running Work's identity with the conversation its stored input names).
pub open spec fn holds_conversation(
    e: EntryView,
    provider: Provider,
    conversation: Seq<char>,
    bound_session: Option<Seq<char>>,
    held: Seq<(Seq<char>, Seq<char>)>,
) -> bool {
    e matches EntryView::Running(w) && w.provider == provider && ((bound_session matches Some(s)
        && s.len() != 0 && w.native_session == s) || field_value(held, w.work_id) == Some(
        conversation,
    ))
}

/// The text an optional borrowed string holds.
pub open spec fn opt_str(o: Option<&str>) -> Option<Seq<char>> {
    match o {
        Some(x) => Some(x@),
        None => None,
    }
}

fn parked_entry(e: &Entry, _unused: &()) -> (r: bool)
    ensures
        r == is_parked(e@),
{
    match e {
        Entry::Running(w) => w.attention,
        _ => false,
    }
}

fn executing_entry(e: &Entry, _unused: &()) -> (r: bool)
    ensures
        r == is_executing(e@),
{
    match e {
        Entry::Running(w) => !w.attention,
        _ => false,
    }
}

fn transport_parked_entry(e: &Entry, _unused: &()) -> (r: bool)
    ensures
        r == is_transport_parked(e@),
{
    match e {
        Entry::Running(w) => w.attention && transport_shaped(
            match &w.failure {
                Some(f) => Some(f.as_str()),
                None => None,
            },
        ),
        _ => false,
    }
}

fn remote_pending_entry(e: &Entry, _unused: &()) -> (r: bool)
    ensures
        r == is_remote_pending(e@),
{
    match e {
        Entry::ArtifactPending(w) => w.remote,
        _ => false,
    }
}

fn remote_done_entry(e: &Entry, _unused: &()) -> (r: bool)
    ensures
        r == is_remote_done(e@),
{
    match e {
        Entry::Done(w) => w.remote,
        _ => false,
    }
}

fn busy_entry(e: &Entry, _unused: &()) -> (r: bool)
    ensures
        r == is_busy(e@),
{
    match e {
        Entry::Running(_) => true,
        Entry::ArtifactPending(_) => true,
        _ => false,
    }
}

fn remote_visible_entry(e: &Entry, store: &WorkStore) -> (r: bool)
    ensures
        r == is_remote_visible(e@, store.owned()),
{
    match e {
        Entry::Running(w) => w.remote && (w.attention || store.is_native_owned(w.work_id.as_str())),
        Entry::ArtifactPending(w) => w.remote && store.is_native_owned(w.work_id.as_str()),
        Entry::Done(w) => w.remote,
        Entry::Stopped(w) => w.remote,
    }
}

fn session_entry(e: &Entry, key: &(Provider, &str, Option<&str>)) -> (r: bool)
    ensures
        r == holds_session(e@, key.0, key.1@, opt_str(key.2)),
{
    match e {
        Entry::Running(w) => w.provider == key.0 && same_text(w.native_session.as_str(), key.1)
            && match key.2 {
            Some(x) => !same_text(w.work_id.as_str(), x),
            None => true,
        },
        _ => false,
    }
}

fn conversation_entry(e: &Entry, key: &(Provider, &str, Option<&str>, &Vec<(String, String)>)) -> (r: bool)
    ensures
        r == holds_conversation(e@, key.0, key.1@, opt_str(key.2), field_texts(key.3@)),
{
    match e {
        Entry::Running(w) => {
            if w.provider != key.0 {
                return false;
            }
            let holds_session = match key.2 {
                Some(s) => crate::text::chars_of(s).len() != 0 && same_text(w.native_session.as_str(), s),
                None => false,
            };
            let holds = match field_named(key.3, w.work_id.as_str()) {
                Some(c) => same_text(c.as_str(), key.1),
                None => false,
            };
            holds_session || holds
        },
        _ => false,
    }
}

/// The session tree one entry owns, with the moment its Work ended; a Work that can still run
/// carries no end.
pub open spec fn session_root(e: EntryView) -> Option<(Seq<char>, Option<u64>)> {
    match e {
        EntryView::Running(w) => Some((w.session, None)),
        EntryView::ArtifactPending(w) => match w.session {
            Some(p) => Some((p, None)),
            None => None,
        },
        EntryView::Done(w) => match w.session {
            Some(p) => Some((p, w.ended_at)),
            None => None,
        },
        EntryView::Stopped(w) => match w.session {
            Some(p) => Some((p, w.ended_at)),
            None => None,
        },
    }
}

/// The frozen delivery tree one entry owns, with the moment its Work ended; a Work that can
/// still deliver carries no end.
pub open spec fn delivery_root(e: EntryView) -> Option<(Seq<char>, Option<u64>)> {
    match e {
        EntryView::Running(w) => Some((w.freeze_root, None)),
        EntryView::ArtifactPending(w) => Some((w.freeze_root, None)),
        EntryView::Done(w) => match w.freeze_root {
            Some(p) => Some((p, w.ended_at)),
            None => None,
        },
        EntryView::Stopped(w) => match w.freeze_root {
            Some(p) => Some((p, w.ended_at)),
            None => None,
        },
    }
}

pub open spec fn root_views(v: Seq<(String, Option<u64>)>) -> Seq<(Seq<char>, Option<u64>)> {
    v.map_values(|p: (String, Option<u64>)| (p.0@, p.1))
}

/// `roots` pairs, in identity order, each Work of `m` that owns a session tree with that tree.
pub open spec fn session_listing(
    ids: Seq<Seq<char>>,
    m: Map<Seq<char>, EntryView>,
    roots: Seq<(Seq<char>, Option<u64>)>,
) -> bool {
    &&& lists(ids, m, |e: EntryView| session_root(e) is Some)
    &&& ids.len() == roots.len()
    &&& forall|t: int| 0 <= t < ids.len() ==> Some(#[trigger] roots[t]) == session_root(m[ids[t]])
}

/// `roots` pairs, in identity order, each Work of `m` that owns a delivery tree with that tree.
pub open spec fn delivery_listing(
    ids: Seq<Seq<char>>,
    m: Map<Seq<char>, EntryView>,
    roots: Seq<(Seq<char>, Option<u64>)>,
) -> bool {
    &&& lists(ids, m, |e: EntryView| delivery_root(e) is Some)
    &&& ids.len() == roots.len()
    &&& forall|t: int| 0 <= t < ids.len() ==> Some(#[trigger] roots[t]) == delivery_root(m[ids[t]])
}

fn session_root_of(e: &Entry) -> (r: Option<(String, Option<u64>)>)
    ensures
        match r {
            Some(p) => session_root(e@) == Some((p.0@, p.1)),
            None => session_root(e@) is None,
        },
{
    match e {
        Entry::Running(w) => Some((w.session.clone(), None)),
        Entry::ArtifactPending(w) => match &w.session {
            Some(p) => Some((p.clone(), None)),
            None => None,
        },
        Entry::Done(w) => match &w.session {
            Some(p) => Some((p.clone(), w.ended_at)),
            None => None,
        },
        Entry::Stopped(w) => match &w.session {
            Some(p) => Some((p.clone(), w.ended_at)),
            None => None,
        },
    }
}

fn delivery_root_of(e: &Entry) -> (r: Option<(String, Option<u64>)>)
    ensures
        match r {
            Some(p) => delivery_root(e@) == Some((p.0@, p.1)),
            None => delivery_root(e@) is None,
        },
{
    match e {
        Entry::Running(w) => Some((w.freeze_root.clone(), None)),
        Entry::ArtifactPending(w) => Some((w.freeze_root.clone(), None)),
        Entry::Done(w) => match &w.freeze_root {
            Some(p) => Some((p.clone(), w.ended_at)),
            None => None,
        },
        Entry::Stopped(w) => match &w.freeze_root {
            Some(p) => Some((p.clone(), w.ended_at)),
            None => None,
        },
    }
}

fn has_session_entry(e: &Entry, _unused: &()) -> (r: bool)
    ensures
        r == (session_root(e@) is Some),
{
    session_root_of(e).is_some()
}

fn has_delivery_entry(e: &Entry, _unused: &()) -> (r: bool)
    ensures
        r == (delivery_root(e@) is Some),
{
    delivery_root_of(e).is_some()
}

/// A listing names each Work once.
pub proof fn lemma_listed_distinct(
    ids: Seq<Seq<char>>,
    m: Map<Seq<char>, EntryView>,
    p: spec_fn(EntryView) -> bool,
)
    requires
        lists(ids, m, p),
    ensures
        forall|a: int, b: int| 0 <= a < b < ids.len() ==> ids[a] != ids[b],
{
    assert forall|a: int, b: int| 0 <= a < b < ids.len() implies ids[a] != ids[b] by {
        if ids[a] == ids[b] {
            assert(id_less(ids[a], ids[b]));
            lemma_less_irreflexive(ids[a]);
        }
    }
}

/// A listing is empty exactly when no Work satisfies it.
pub proof fn lists_empty(ids: Seq<Seq<char>>, m: Map<Seq<char>, EntryView>, p: spec_fn(EntryView) -> bool)
    requires
        lists(ids, m, p),
    ensures
        (ids.len() == 0) <==> !(exists|k: Seq<char>| m.contains_key(k) && #[trigger] p(m[k])),
{
    if ids.len() > 0 {
        assert(ids.contains(ids[0]));
    }
    if exists|k: Seq<char>| m.contains_key(k) && #[trigger] p(m[k]) {
        let k = choose|k: Seq<char>| m.contains_key(k) && #[trigger] p(m[k]);
        assert(ids.contains(k));
    }
}

impl WorkStore {
    /// The identities of every Work whose entry passes `test`, which decides `p`.
    pub(crate) fn select<C, F: Fn(&Entry, &C) -> bool>(&self, test: F, ctx: &C, Ghost(p): Ghost<
        spec_fn(EntryView) -> bool,
    >) -> (r: Vec<String>)
        requires
            self.wf(),
            forall|e: &Entry| #[trigger] test.requires((e, ctx)),
            forall|e: &Entry, b: bool| test.ensures((e, ctx), b) ==> b == p(e@),
        ensures
            lists(names(r@), self@, p),
    {
        proof {
            self.lemma_rows();
        }
        let ghost s = views(self.rows());
        let mut out: Vec<String> = Vec::new();
        let ghost mut src: Seq<int> = Seq::empty();
        let n = self.row_count();
        let mut i: usize = 0;
        while i < n
            invariant
                self.wf(),
                n == self.rows().len(),
                s == views(self.rows()),
                sorted(s),
                i <= n,
                forall|e: &Entry| #[trigger] test.requires((e, ctx)),
                forall|e: &Entry, b: bool| test.ensures((e, ctx), b) ==> b == p(e@),
                src.len() == out@.len(),
                forall|t: int|
                    0 <= t < src.len() ==> 0 <= #[trigger] src[t] < i && s[src[t]].id() == out@[t]@
                        && p(s[src[t]]),
                forall|a: int, b: int| 0 <= a < b < src.len() ==> #[trigger] src[a] < #[trigger] src[b],
                forall|j: int| 0 <= j < i && p(#[trigger] s[j]) ==> exists|t: int| 0 <= t < src.len() && src[t] == j,
            decreases n - i,
        {
            let e = self.row(i);
            if test(e, ctx) {
                let ghost src0 = src;
                out.push(e.work_id().clone());
                proof {
                    src = src.push(i as int);
                    assert(s[i as int] == e@);
                }
                assert forall|j: int| 0 <= j < i + 1 && p(#[trigger] s[j]) implies exists|t: int|
                    0 <= t < src.len() && src[t] == j by {
                    if j == i {
                        assert(src[src.len() - 1] == j);
                    } else {
                        let t = choose|t: int| 0 <= t < src0.len() && src0[t] == j;
                        assert(src[t] == j);
                    }
                }
            } else {
                assert(s[i as int] == e@);
            }
            i = i + 1;
        }
        proof {
            let ids = names(out@);
            assert forall|a: int, b: int| 0 <= a < b < ids.len() implies id_less(
                #[trigger] ids[a],
                #[trigger] ids[b],
            ) by {
                assert(src[a] < src[b]);
            }
            assert forall|k: Seq<char>| ids.contains(k) <==> (self@.contains_key(k) && p(
                self@[k],
            )) by {
                if ids.contains(k) {
                    let t = choose|t: int| 0 <= t < ids.len() && ids[t] == k;
                    lemma_lookup(s, src[t]);
                }
                if self@.contains_key(k) && p(self@[k]) {
                    let j = choose|j: int| 0 <= j < s.len() && (#[trigger] s[j]).id() == k;
                    lemma_lookup(s, j);
                    let t = choose|t: int| 0 <= t < src.len() && src[t] == j;
                    assert(ids[t] == k);
                }
            }
        }
        out
    }

    /// ActiveIds restores only native Running owners into Provider-switch exclusion.
    pub fn active_ids(&self) -> (r: Vec<String>)
        requires
            self.wf(),
        ensures
            lists(names(r@), self@, |e: EntryView| is_active(e)),
    {
        self.select(is_running_entry, &(), Ghost(|e: EntryView| is_active(e)))
    }

    /// ParkedIds names every Work waiting on its owner, so a restart can look for undelivered bytes.
    pub fn parked_ids(&self) -> (r: Vec<String>)
        requires
            self.wf(),
        ensures
            lists(names(r@), self@, |e: EntryView| is_parked(e)),
    {
        self.select(parked_entry, &(), Ghost(|e: EntryView| is_parked(e)))
    }

    /// ExecutingIds names every Running owner whose turn a restart must reattach or relaunch.
    pub fn executing_ids(&self) -> (r: Vec<String>)
        requires
            self.wf(),
        ensures
            lists(names(r@), self@, |e: EntryView| is_executing(e)),
    {
        self.select(executing_entry, &(), Ghost(|e: EntryView| is_executing(e)))
    }

    /// TransportParkedIds names every parked Work a reconnect of its own session can repair.
    pub fn transport_parked_ids(&self) -> (r: Vec<String>)
        requires
            self.wf(),
        ensures
            lists(names(r@), self@, |e: EntryView| is_transport_parked(e)),
    {
        self.select(transport_parked_entry, &(), Ghost(|e: EntryView| is_transport_parked(e)))
    }

    /// RemotePendingArtifacts names only Account-owned results awaiting byte revalidation.
    pub fn remote_pending_artifacts(&self) -> (r: Vec<String>)
        requires
            self.wf(),
        ensures
            lists(names(r@), self@, |e: EntryView| is_remote_pending(e)),
    {
        self.select(remote_pending_entry, &(), Ghost(|e: EntryView| is_remote_pending(e)))
    }

    /// Each listed Work paired with its public projection.
    fn snapshots_of(&self, ids: Vec<String>, Ghost(p): Ghost<spec_fn(EntryView) -> bool>) -> (r: Vec<
        (String, RunSnapshot),
    >)
        requires
            self.wf(),
            lists(names(ids@), self@, p),
        ensures
            lists(pair_names(r@), self@, p),
            forall|t: int|
                0 <= t < r@.len() ==> (#[trigger] r@[t]).1@ == snapshot_of(self@[r@[t].0@]),
    {
        let mut out: Vec<(String, RunSnapshot)> = Vec::new();
        let mut i: usize = 0;
        while i < ids.len()
            invariant
                self.wf(),
                lists(names(ids@), self@, p),
                i <= ids@.len(),
                out@.len() == i,
                forall|t: int| 0 <= t < i ==> (#[trigger] out@[t]).0@ == ids@[t]@,
                forall|t: int|
                    0 <= t < i ==> (#[trigger] out@[t]).1@ == snapshot_of(self@[out@[t].0@]),
            decreases ids.len() - i,
        {
            let id = ids[i].clone();
            proof {
                assert(names(ids@)[i as int] == ids@[i as int]@);
                assert(names(ids@).contains(ids@[i as int]@));
            }
            match self.entry_snapshot(id.as_str()) {
                Some(v) => out.push((id, v)),
                None => {
                    assert(false);
                },
            }
            i = i + 1;
        }
        proof {
            assert(pair_names(out@) =~= names(ids@));
        }
        out
    }

    /// DeliveryCandidates returns durable Done truth in identity order until Account acknowledges it.
    pub fn remote_delivery_candidates(&self) -> (r: Vec<(String, RunSnapshot)>)
        requires
            self.wf(),
        ensures
            lists(pair_names(r@), self@, |e: EntryView| is_remote_done(e)),
            forall|t: int|
                0 <= t < r@.len() ==> (#[trigger] r@[t]).1@ == snapshot_of(self@[r@[t].0@]),
    {
        let ids = self.select(remote_done_entry, &(), Ghost(|e: EntryView| is_remote_done(e)));
        self.snapshots_of(ids, Ghost(|e: EntryView| is_remote_done(e)))
    }

    /// Snapshots publishes only physically owned Running or durable non-live attention truth.
    pub fn remote_snapshots(&self) -> (r: Vec<(String, RunSnapshot)>)
        requires
            self.wf(),
        ensures
            lists(pair_names(r@), self@, |e: EntryView| is_remote_visible(e, self.owned())),
            forall|t: int|
                0 <= t < r@.len() ==> (#[trigger] r@[t]).1@ == snapshot_of(self@[r@[t].0@]),
    {
        let ghost owned = self.owned();
        let ids = self.select(
            remote_visible_entry,
            self,
            Ghost(|e: EntryView| is_remote_visible(e, owned)),
        );
        self.snapshots_of(ids, Ghost(|e: EntryView| is_remote_visible(e, owned)))
    }

    /// TerminalSessions maps every session tree to its persisted end, in identity order, so
    /// retention never mistakes a live Work for garbage.
    pub fn terminal_sessions(&self) -> (r: Vec<(String, Option<u64>)>)
        requires
            self.wf(),
        ensures
            exists|ids: Seq<Seq<char>>| #[trigger] session_listing(ids, self@, root_views(r@)),
    {
        let ids = self.select(has_session_entry, &(), Ghost(|e: EntryView| session_root(e) is Some));
        let mut out: Vec<(String, Option<u64>)> = Vec::new();
        let mut i: usize = 0;
        while i < ids.len()
            invariant
                self.wf(),
                lists(names(ids@), self@, |e: EntryView| session_root(e) is Some),
                i <= ids@.len(),
                out@.len() == i,
                forall|t: int|
                    0 <= t < i ==> Some(#[trigger] root_views(out@)[t]) == session_root(
                        self@[names(ids@)[t]],
                    ),
            decreases ids.len() - i,
        {
            proof {
                assert(names(ids@)[i as int] == ids@[i as int]@);
                assert(names(ids@).contains(ids@[i as int]@));
            }
            let ghost o0 = out@;
            match self.entry_ref(ids[i].as_str()) {
                Some(e) => match session_root_of(e) {
                    Some(p) => out.push(p),
                    None => {
                        assert(false);
                    },
                },
                None => {
                    assert(false);
                },
            }
            assert(root_views(out@)[i as int] == (out@[i as int].0@, out@[i as int].1));
            assert forall|t: int| 0 <= t < i implies #[trigger] root_views(out@)[t] == root_views(
                o0,
            )[t] by {
                assert(out@[t] == o0[t]);
            }
            i = i + 1;
        }
        assert(session_listing(names(ids@), self@, root_views(out@)));
        out
    }

    /// DeliveryRoots maps every frozen tree to its persisted end, in identity order, so retention
    /// never sweeps live bytes.
    pub fn delivery_roots(&self) -> (r: Vec<(String, Option<u64>)>)
        requires
            self.wf(),
        ensures
            exists|ids: Seq<Seq<char>>| #[trigger] delivery_listing(ids, self@, root_views(r@)),
    {
        let ids = self.select(has_delivery_entry, &(), Ghost(|e: EntryView| delivery_root(e) is Some));
        let mut out: Vec<(String, Option<u64>)> = Vec::new();
        let mut i: usize = 0;
        while i < ids.len()
            invariant
                self.wf(),
                lists(names(ids@), self@, |e: EntryView| delivery_root(e) is Some),
                i <= ids@.len(),
                out@.len() == i,
                forall|t: int|
                    0 <= t < i ==> Some(#[trigger] root_views(out@)[t]) == delivery_root(
                        self@[names(ids@)[t]],
                    ),
            decreases ids.len() - i,
        {
            proof {
                assert(names(ids@)[i as int] == ids@[i as int]@);
                assert(names(ids@).contains(ids@[i as int]@));
            }
            let ghost o0 = out@;
            match self.entry_ref(ids[i].as_str()) {
                Some(e) => match delivery_root_of(e) {
                    Some(p) => out.push(p),
                    None => {
                        assert(false);
                    },
                },
                None => {
                    assert(false);
                },
            }
            assert(root_views(out@)[i as int] == (out@[i as int].0@, out@[i as int].1));
            assert forall|t: int| 0 <= t < i implies #[trigger] root_views(out@)[t] == root_views(
                o0,
            )[t] by {
                assert(out@[t] == o0[t]);
            }
            i = i + 1;
        }
        assert(delivery_listing(names(ids@), self@, root_views(out@)));
        out
    }

    /// CanSwapRelease admits a binary swap only while no Work is running or reverifying its artifact.
    pub fn can_swap_release(&self) -> (r: bool)
        requires
            self.wf(),
        ensures
            r == !(exists|k: Seq<char>| self@.contains_key(k) && #[trigger] is_busy(self@[k])),
    {
        let busy = self.select(busy_entry, &(), Ghost(|e: EntryView| is_busy(e)));
        proof {
            let p = |e: EntryView| is_busy(e);
            lists_empty(names(busy@), self@, p);
            assert(names(busy@).len() == busy@.len());
            if exists|k: Seq<char>| self@.contains_key(k) && #[trigger] is_busy(self@[k]) {
                let k = choose|k: Seq<char>| self@.contains_key(k) && #[trigger] is_busy(self@[k]);
                assert(p(self@[k]));
            }
        }
        busy.len() == 0
    }

    /// SessionLeased reports a live Work other than the excluded one already owning this exact
    /// Provider conversation.
    pub fn session_leased(&self, provider: Provider, native_session: &str, except: Option<&str>) -> (r:
        bool)
        requires
            self.wf(),
        ensures
            r == (native_session@.len() != 0 && exists|k: Seq<char>|
                self@.contains_key(k) && #[trigger] holds_session(
                    self@[k],
                    provider,
                    native_session@,
                    opt_str(except),
                )),
    {
        if crate::text::chars_of(native_session).len() == 0 {
            return false;
        }
        let key = (provider, native_session, except);
        let ghost ex = opt_str(except);
        let holders = self.select(
            session_entry,
            &key,
            Ghost(|e: EntryView| holds_session(e, provider, native_session@, ex)),
        );
        proof {
            let p = |e: EntryView| holds_session(e, provider, native_session@, ex);
            lists_empty(names(holders@), self@, p);
            assert(names(holders@).len() == holders@.len());
            if exists|k: Seq<char>|
                self@.contains_key(k) && #[trigger] holds_session(
                    self@[k],
                    provider,
                    native_session@,
                    ex,
                ) {
                let k = choose|k: Seq<char>|
                    self@.contains_key(k) && #[trigger] holds_session(
                        self@[k],
                        provider,
                        native_session@,
                        ex,
                    );
                assert(p(self@[k]));
            }
        }
        holders.len() != 0
    }

    /// LiveConversationWork names the Running Work already holding this conversation, so a later
    /// brief reaches that Work as its own turn instead of forking a second Agent onto it; when
    /// several hold it, the first in identity order is named.
    pub fn live_conversation_work(
        &self,
        provider: Provider,
        conversation: &str,
        bound_session: Option<&str>,
        held: &Vec<(String, String)>,
    ) -> (r: Option<String>)
        requires
            self.wf(),
        ensures
            match r {
                Some(id) => self@.contains_key(id@) && holds_conversation(
                    self@[id@],
                    provider,
                    conversation@,
                    opt_str(bound_session),
                    field_texts(held@),
                ),
                None => forall|k: Seq<char>|
                    #![trigger self@[k]]
                    self@.contains_key(k) ==> !holds_conversation(
                        self@[k],
                        provider,
                        conversation@,
                        opt_str(bound_session),
                        field_texts(held@),
                    ),
            },
    {
        let key = (provider, conversation, bound_session, held);
        let ghost b = opt_str(bound_session);
        let ghost h = field_texts(held@);
        let live = self.select(
            conversation_entry,
            &key,
            Ghost(|e: EntryView| holds_conversation(e, provider, conversation@, b, h)),
        );
        if live.len() == 0 {
            proof {
                assert forall|k: Seq<char>| #![trigger self@[k]] self@.contains_key(k) implies !holds_conversation(
                    self@[k],
                    provider,
                    conversation@,
                    b,
                    h,
                ) by {
                    if holds_conversation(self@[k], provider, conversation@, b, h) {
                        assert(names(live@).contains(k));
                    }
                }
            }
            None
        } else {
            proof {
                assert(names(live@).contains(names(live@)[0]));
            }
            Some(live[0].as_str().to_owned())
        }
    }
}

/// Terminal Account truth is always published and private truth never is: in any listing of the
/// remotely visible Works, every Account-owned Done or Stopped Work appears, and no Done or
/// Stopped Work of this machine's own does.
pub proof fn remote_terminal_truth_is_published(
    ids: Seq<Seq<char>>,
    m: Map<Seq<char>, EntryView>,
    owned: Set<Seq<char>>,
    k: Seq<char>,
)
    requires
        lists(ids, m, |e: EntryView| is_remote_visible(e, owned)),
        m.contains_key(k),
    ensures
        (m[k] matches EntryView::Stopped(w) && w.remote) ==> ids.contains(k),
        (m[k] matches EntryView::Done(w) && w.remote) ==> ids.contains(k),
        (m[k] matches EntryView::Stopped(w) && !w.remote) ==> !ids.contains(k),
        (m[k] matches EntryView::Done(w) && !w.remote) ==> !ids.contains(k),
{
}

} // verus!
