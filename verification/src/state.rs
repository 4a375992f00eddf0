//! Public Work truth: the phases, progress and snapshots every screen renders.

use vstd::prelude::*;
use crate::evidence::ResultKind;

verus! {

/// RunPhase is the one public stage of a Work.
#[derive(Clone, Copy, Debug, PartialEq, Eq, Structural)]
pub enum RunPhase {
    Running,
    Done,
    Stopped,
    Failed,
}

/// RunProgress is the latest actionable Provider fact and its monotonic replay cursor.
pub struct RunProgress {
    pub sequence: u64,
    pub text: String,
}

pub struct ProgressView {
    pub sequence: u64,
    pub text: Seq<char>,
}

impl View for RunProgress {
    type V = ProgressView;

    open spec fn view(&self) -> ProgressView {
        ProgressView { sequence: self.sequence, text: self.text@ }
    }
}

pub open spec fn opt_progress(p: Option<RunProgress>) -> Option<ProgressView> {
    match p {
        Some(p) => Some(p@),
        None => None,
    }
}

impl RunProgress {
    pub fn copy(&self) -> (r: Self)
        ensures
            r@ == self@,
    {
        RunProgress { sequence: self.sequence, text: self.text.clone() }
    }
}

pub fn copy_progress(p: &Option<RunProgress>) -> (r: Option<RunProgress>)
    ensures
        opt_progress(r) == opt_progress(*p),
{
    match p {
        Some(p) => Some(p.copy()),
        None => None,
    }
}

pub fn copy_text(o: &Option<String>) -> (r: Option<String>)
    ensures
        crate::evidence::opt_text(r) == crate::evidence::opt_text(*o),
{
    match o {
        Some(s) => Some(s.clone()),
        None => None,
    }
}

/// DeliveryFile names one delivered product file of one Work.
pub struct DeliveryFile {
    pub work_id: String,
    pub name: String,
    pub title: String,
}

pub struct FileView {
    pub work_id: Seq<char>,
    pub name: Seq<char>,
    pub title: Seq<char>,
}

impl View for DeliveryFile {
    type V = FileView;

    open spec fn view(&self) -> FileView {
        FileView { work_id: self.work_id@, name: self.name@, title: self.title@ }
    }
}

pub open spec fn files(v: Seq<DeliveryFile>) -> Seq<FileView> {
    v.map_values(|f: DeliveryFile| f@)
}

impl DeliveryFile {
    pub fn copy(&self) -> (r: Self)
        ensures
            r@ == self@,
    {
        DeliveryFile { work_id: self.work_id.clone(), name: self.name.clone(), title: self.title.clone() }
    }
}

pub fn copy_files(v: &Vec<DeliveryFile>) -> (r: Vec<DeliveryFile>)
    ensures
        files(r@) == files(v@),
{
    let mut r: Vec<DeliveryFile> = Vec::new();
    let mut i: usize = 0;
    while i < v.len()
        invariant
            i <= v.len(),
            r@.len() == i,
            forall|k: int| 0 <= k < i ==> (#[trigger] r@[k])@ == v@[k]@,
        decreases v.len() - i,
    {
        r.push(v[i].copy());
        i = i + 1;
    }
    assert(files(r@) =~= files(v@));
    r
}

/// RunSnapshot is everything a screen may show about one Work.
pub struct RunSnapshot {
    pub phase: RunPhase,
    pub text: String,
    pub started_at: u64,
    pub progress: Option<RunProgress>,
    pub tokens: Option<u64>,
    pub model: Option<String>,
    pub kind: Option<ResultKind>,
    pub run: Option<String>,
    pub files: Vec<DeliveryFile>,
    pub awaiting: bool,
}

pub struct SnapshotView {
    pub phase: RunPhase,
    pub text: Seq<char>,
    pub started_at: u64,
    pub progress: Option<ProgressView>,
    pub tokens: Option<u64>,
    pub model: Option<Seq<char>>,
    pub kind: Option<ResultKind>,
    pub run: Option<Seq<char>>,
    pub files: Seq<FileView>,
    pub awaiting: bool,
}

impl View for RunSnapshot {
    type V = SnapshotView;

    open spec fn view(&self) -> SnapshotView {
        SnapshotView {
            phase: self.phase,
            text: self.text@,
            started_at: self.started_at,
            progress: opt_progress(self.progress),
            tokens: self.tokens,
            model: crate::evidence::opt_text(self.model),
            kind: self.kind,
            run: crate::evidence::opt_text(self.run),
            files: files(self.files@),
            awaiting: self.awaiting,
        }
    }
}

} // verus!
