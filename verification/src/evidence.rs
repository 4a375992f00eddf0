//! Verified native answers and artifact facts are the only source of Done.

use vstd::prelude::*;
use crate::text::{is_blank, trim, trimmed, valid_identity, valid_identity_text, is_blank_spec};

verus! {

pub const MAX_PROTECTED_ITEMS: usize = 64;
pub const MAX_PROTECTED_BYTES: usize = 262144;
pub const MAX_PROTECTED_ITEM_BYTES: usize = 65536;

/// ResultKind reflects only verified delivery facts.
#[derive(Clone, Copy, Debug, PartialEq, Eq, Structural)]
pub enum ResultKind {
    Answer,
    Artifact,
}

/// ArtifactFact binds Provider output to one Work and immutable verified bytes.
pub struct ArtifactFact {
    pub work_id: String,
    pub name: String,
    pub title: String,
    pub tags: Vec<String>,
    pub sha256: String,
    pub bytes: u64,
    pub format: String,
    pub width: Option<u32>,
    pub height: Option<u32>,
    pub freeze_root: String,
    pub frozen_path: String,
}

/// A path separator on either desktop platform.
pub open spec fn is_separator(c: char) -> bool {
    c == '/' || c == '\\'
}

/// `path` names `root` itself or something beneath it, compared component by component.
pub open spec fn path_within(path: Seq<char>, root: Seq<char>) -> bool {
    root.len() <= path.len() && path.subrange(0, root.len() as int) == root && (path.len()
        == root.len() || (root.len() > 0 && is_separator(root.last())) || is_separator(
        path[root.len() as int],
    ))
}

pub fn is_separator_char(c: char) -> (r: bool)
    ensures
        r == is_separator(c),
{
    c == '/' || c == '\\'
}

pub fn within(path: &str, root: &str) -> (r: bool)
    ensures
        r == path_within(path@, root@),
{
    let p = crate::text::chars_of(path);
    let q = crate::text::chars_of(root);
    if q.len() > p.len() {
        return false;
    }
    let mut i: usize = 0;
    while i < q.len()
        invariant
            p@ == path@,
            q@ == root@,
            q.len() <= p.len(),
            i <= q.len(),
            forall|j: int| 0 <= j < i ==> p@[j] == q@[j],
        decreases q.len() - i,
    {
        if p[i] != q[i] {
            assert(p@.subrange(0, q@.len() as int)[i as int] != q@[i as int]);
            assert(p@.subrange(0, q@.len() as int) != q@);
            return false;
        }
        i = i + 1;
    }
    assert(p@.subrange(0, q@.len() as int) =~= q@);
    p.len() == q.len() || (q.len() > 0 && is_separator_char(q[q.len() - 1])) || is_separator_char(
        p[q.len()],
    )
}

/// Work identities are bounded protocol text, never paths or control bytes.
pub fn valid_work_id(work_id: &str) -> (r: Result<(), String>)
    ensures
        r is Ok <==> valid_identity_text(work_id@),
        r matches Err(e) ==> e@ == "Work identity is invalid"@,
{
    if !valid_identity(work_id) {
        Err("Work identity is invalid".to_owned())
    } else {
        Ok(())
    }
}

/// Every artifact belongs to this Work.
pub open spec fn owned_by(artifacts: Seq<ArtifactFact>, work_id: Seq<char>) -> bool {
    forall|i: int| 0 <= i < artifacts.len() ==> (#[trigger] artifacts[i]).work_id@ == work_id
}

/// Every artifact shares the first one's freeze root, lies beneath it, and carries its own name.
pub open spec fn consistent(artifacts: Seq<ArtifactFact>) -> bool {
    &&& forall|i: int|
        0 <= i < artifacts.len() ==> (#[trigger] artifacts[i]).freeze_root@ == artifacts[0].freeze_root@
            && path_within(artifacts[i].frozen_path@, artifacts[0].freeze_root@)
    &&& forall|i: int, j: int|
        0 <= i < j < artifacts.len() ==> (#[trigger] artifacts[i]).name@ != (#[trigger] artifacts[j]).name@
}

/// The answer a Work delivers: the Provider's reply trimmed, or nothing when it is blank.
pub open spec fn delivered_answer(answer: Option<Seq<char>>) -> Seq<char> {
    match answer {
        Some(a) => trimmed(a),
        None => Seq::empty(),
    }
}

pub open spec fn opt_text(o: Option<String>) -> Option<Seq<char>> {
    match o {
        Some(s) => Some(s@),
        None => None,
    }
}

/// DeliveredWork requires a native terminal fact plus verified user value.
pub struct DeliveredWork {
    kind: ResultKind,
    answer: String,
    artifacts: Vec<ArtifactFact>,
}

impl DeliveredWork {
    pub closed spec fn spec_kind(&self) -> ResultKind {
        self.kind
    }

    pub closed spec fn spec_answer(&self) -> Seq<char> {
        self.answer@
    }

    pub closed spec fn spec_artifacts(&self) -> Seq<ArtifactFact> {
        self.artifacts@
    }

    /// Verified accepts one Work's native result only when it is owned, consistent and non-empty.
    pub fn verified(work_id: String, answer: Option<String>, artifacts: Vec<ArtifactFact>) -> (r:
        Result<Self, String>)
        ensures
            !valid_identity_text(work_id@) ==> (r matches Err(e) && e@ == "Work identity is invalid"@),
            valid_identity_text(work_id@) && !owned_by(artifacts@, work_id@) ==> (r matches Err(e)
                && e@ == "Provider artifact ownership is invalid"@),
            valid_identity_text(work_id@) && owned_by(artifacts@, work_id@) && !consistent(
                artifacts@,
            ) ==> (r matches Err(e) && e@ == "Provider artifact delivery is inconsistent"@),
            valid_identity_text(work_id@) && owned_by(artifacts@, work_id@) && consistent(
                artifacts@,
            ) && delivered_answer(opt_text(answer)).len() == 0 && artifacts@.len() == 0 ==> (r
                matches Err(e) && e@ == "Provider completed without a reply or artifact"@),
            valid_identity_text(work_id@) && owned_by(artifacts@, work_id@) && consistent(
                artifacts@,
            ) && (delivered_answer(opt_text(answer)).len() != 0 || artifacts@.len() != 0) ==> (r
                matches Ok(d) && d.spec_answer() == delivered_answer(opt_text(answer))
                && d.spec_artifacts() == artifacts@ && d.spec_kind() == (if artifacts@.len()
                == 0 {
                ResultKind::Answer
            } else {
                ResultKind::Artifact
            })),
    {
        valid_work_id(work_id.as_str())?;
        let n = artifacts.len();
        let mut i: usize = 0;
        while i < n
            invariant
                n == artifacts@.len(),
                i <= n,
                valid_identity_text(work_id@),
                forall|j: int| 0 <= j < i ==> (#[trigger] artifacts@[j]).work_id@ == work_id@,
            decreases n - i,
        {
            if !crate::text::same_text(artifacts[i].work_id.as_str(), work_id.as_str()) {
                return Err("Provider artifact ownership is invalid".to_owned());
            }
            i = i + 1;
        }
        if n > 0 {
            let mut i: usize = 0;
            while i < n
                invariant
                    n == artifacts@.len(),
                    n > 0,
                    i <= n,
                    owned_by(artifacts@, work_id@),
                    valid_identity_text(work_id@),
                    forall|j: int|
                        0 <= j < i ==> (#[trigger] artifacts@[j]).freeze_root@
                            == artifacts@[0].freeze_root@ && path_within(
                            artifacts@[j].frozen_path@,
                            artifacts@[0].freeze_root@,
                        ),
                    forall|j: int, k: int|
                        0 <= j < k < i ==> (#[trigger] artifacts@[j]).name@ != (#[trigger] artifacts@[k]).name@,
                decreases n - i,
            {
                if !crate::text::same_text(
                    artifacts[i].freeze_root.as_str(),
                    artifacts[0].freeze_root.as_str(),
                ) || !within(artifacts[i].frozen_path.as_str(), artifacts[0].freeze_root.as_str()) {
                    return Err("Provider artifact delivery is inconsistent".to_owned());
                }
                let mut j: usize = 0;
                while j < i
                    invariant
                        n == artifacts@.len(),
                        owned_by(artifacts@, work_id@),
                        valid_identity_text(work_id@),
                    valid_identity_text(work_id@),
                        i < n,
                        j <= i,
                        forall|k: int| 0 <= k < j ==> artifacts@[k].name@ != artifacts@[i as int].name@,
                    decreases i - j,
                {
                    if crate::text::same_text(artifacts[j].name.as_str(), artifacts[i].name.as_str()) {
                        return Err("Provider artifact delivery is inconsistent".to_owned());
                    }
                    j = j + 1;
                }
                i = i + 1;
            }
        }
        let answer = match answer {
            Some(value) => trim(value.as_str()),
            None => String::new(),
        };
        if crate::text::chars_of(answer.as_str()).len() == 0 && n == 0 {
            return Err("Provider completed without a reply or artifact".to_owned());
        }
        Ok(DeliveredWork {
            kind: if n == 0 {
                ResultKind::Answer
            } else {
                ResultKind::Artifact
            },
            answer,
            artifacts,
        })
    }

    pub fn kind(&self) -> (r: ResultKind)
        ensures
            r == self.spec_kind(),
    {
        self.kind
    }

    /// Delivery receives frozen facts without exposing local paths.
    pub fn into_artifacts(self) -> (r: (String, Vec<ArtifactFact>))
        ensures
            r.0@ == self.spec_answer(),
            r.1@ == self.spec_artifacts(),
    {
        (self.answer, self.artifacts)
    }
}

} // verus!
