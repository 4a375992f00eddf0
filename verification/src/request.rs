//! Work requests preserve exact user meaning, ordered context, and authority.

use vstd::prelude::*;
use crate::text::{same_text, valid_identity, valid_identity_text};

verus! {

/// Provenance prevents external context from inheriting user authority.
#[derive(Clone, Copy, Debug, PartialEq, Eq, Structural)]
pub enum Provenance {
    User,
    Agent,
    External,
}

/// WorkContext preserves one ordered message and its trust boundary.
pub struct WorkContext {
    pub author: String,
    pub source: String,
    pub provenance: Provenance,
    pub text: String,
    pub attachments: Vec<String>,
}

/// The abstract content of one context row.
pub struct ContextView {
    pub author: Seq<char>,
    pub source: Seq<char>,
    pub provenance: Provenance,
    pub text: Seq<char>,
    pub attachments: Seq<Seq<char>>,
}

pub open spec fn texts(v: Seq<String>) -> Seq<Seq<char>> {
    v.map_values(|s: String| s@)
}

impl View for WorkContext {
    type V = ContextView;

    open spec fn view(&self) -> ContextView {
        ContextView {
            author: self.author@,
            source: self.source@,
            provenance: self.provenance,
            text: self.text@,
            attachments: texts(self.attachments@),
        }
    }
}

impl ContextView {
    /// Only the Account-authored instruction row is Designer guidance.
    pub open spec fn is_guidance(self) -> bool {
        self.author == "TrianGoat Designer"@ && self.source == "guidance"@ && self.provenance
            == Provenance::Agent
    }
}

/// A copy of a list of strings with the same characters.
pub fn copy_texts(v: &Vec<String>) -> (r: Vec<String>)
    ensures
        texts(r@) == texts(v@),
{
    let mut r: Vec<String> = Vec::new();
    let mut i: usize = 0;
    while i < v.len()
        invariant
            i <= v.len(),
            r@.len() == i,
            forall|k: int| 0 <= k < i ==> (#[trigger] r@[k])@ == v@[k]@,
        decreases v.len() - i,
    {
        r.push(v[i].clone());
        i = i + 1;
    }
    assert(texts(r@) =~= texts(v@));
    r
}

impl WorkContext {
    /// DesignerGuidance recognizes only the Account-authored instruction row.
    pub fn designer_guidance(&self) -> (r: bool)
        ensures
            r == self@.is_guidance(),
    {
        same_text(self.author.as_str(), "TrianGoat Designer") && same_text(
            self.source.as_str(),
            "guidance",
        ) && self.provenance == Provenance::Agent
    }

    /// A copy with the same content.
    pub fn copy(&self) -> (r: Self)
        ensures
            r@ == self@,
    {
        WorkContext {
            author: self.author.clone(),
            source: self.source.clone(),
            provenance: self.provenance,
            text: self.text.clone(),
            attachments: copy_texts(&self.attachments),
        }
    }
}

/// WorkRequest transports complete browser evidence without semantic filtering.
pub struct WorkRequest {
    pub conversation: String,
    /// The user's original goal remains the primary execution text.
    pub goal: String,
    /// Ordered context preserves author, source, provenance, text, and attachment references.
    pub context: Vec<WorkContext>,
}

pub struct RequestView {
    pub conversation: Seq<char>,
    pub goal: Seq<char>,
    pub context: Seq<ContextView>,
}

pub open spec fn contexts(v: Seq<WorkContext>) -> Seq<ContextView> {
    v.map_values(|c: WorkContext| c@)
}

impl View for WorkRequest {
    type V = RequestView;

    open spec fn view(&self) -> RequestView {
        RequestView {
            conversation: self.conversation@,
            goal: self.goal@,
            context: contexts(self.context@),
        }
    }
}

/// The conversation a request names: its own, or the Work's identity when it names none.
pub open spec fn conversation_choice(conversation: Seq<char>, work_id: Seq<char>) -> Seq<char> {
    if conversation.len() != 0 {
        conversation
    } else {
        work_id
    }
}

/// Every context row that is not Designer guidance, in order.
pub open spec fn without_guidance(s: Seq<ContextView>) -> Seq<ContextView>
    decreases s.len(),
{
    if s.len() == 0 {
        s
    } else if s.last().is_guidance() {
        without_guidance(s.drop_last())
    } else {
        without_guidance(s.drop_last()).push(s.last())
    }
}

/// How many context rows are Designer guidance.
pub open spec fn guidance_count(s: Seq<ContextView>) -> nat
    decreases s.len(),
{
    if s.len() == 0 {
        0
    } else if s.last().is_guidance() {
        guidance_count(s.drop_last()) + 1
    } else {
        guidance_count(s.drop_last())
    }
}

/// The text of the first Designer guidance row, if any.
pub open spec fn first_guidance(s: Seq<ContextView>) -> Option<Seq<char>>
    decreases s.len(),
{
    if s.len() == 0 {
        None
    } else if s[0].is_guidance() {
        Some(s[0].text)
    } else {
        first_guidance(s.drop_first())
    }
}

proof fn lemma_first_guidance_prefix(s: Seq<ContextView>, i: int)
    requires
        0 <= i < s.len(),
        first_guidance(s.subrange(0, i)) is None,
    ensures
        first_guidance(s.subrange(0, i + 1)) == (if s[i].is_guidance() {
            Some(s[i].text)
        } else {
            None::<Seq<char>>
        }),
    decreases i,
{
    let t = s.subrange(0, i + 1);
    assert(t[0] == s[0]);
    if i == 0 {
        assert(t.drop_first() =~= Seq::<ContextView>::empty());
        assert(first_guidance(t.drop_first()) is None);
    } else {
        let u = s.subrange(0, i);
        assert(u[0] == s[0]);
        if !s[0].is_guidance() {
            assert(s.subrange(0, i).drop_first() =~= s.drop_first().subrange(0, i - 1));
            assert(t.drop_first() =~= s.drop_first().subrange(0, i));
            lemma_first_guidance_prefix(s.drop_first(), i - 1);
            assert(s.drop_first()[i - 1] == s[i]);
            assert(first_guidance(t) == first_guidance(t.drop_first()));
        } else {
            assert(first_guidance(u) is Some);
        }
    }
}

proof fn lemma_first_guidance_found(s: Seq<ContextView>, i: int)
    requires
        0 <= i <= s.len(),
        first_guidance(s.subrange(0, i)) is Some,
    ensures
        first_guidance(s) == first_guidance(s.subrange(0, i)),
    decreases i,
{
    let t = s.subrange(0, i);
    if !s[0].is_guidance() {
        assert(t.drop_first() =~= s.drop_first().subrange(0, i - 1));
        lemma_first_guidance_found(s.drop_first(), i - 1);
    }
}

impl WorkRequest {
    /// ConversationId names the conversation this Work belongs to.
    pub fn conversation_id(&self, work_id: &str) -> (r: Result<String, String>)
        ensures
            valid_identity_text(conversation_choice(self.conversation@, work_id@)) ==> (r
                matches Ok(v) && v@ == conversation_choice(self.conversation@, work_id@)),
            !valid_identity_text(conversation_choice(self.conversation@, work_id@)) ==> (r
                matches Err(e) && e@ == "Conversation identity is invalid"@),
    {
        let value: &str = if self.conversation.as_str().unicode_len() != 0 {
            self.conversation.as_str()
        } else {
            work_id
        };
        if !valid_identity(value) {
            return Err("Conversation identity is invalid".to_owned());
        }
        Ok(value.to_owned())
    }

    /// Frozen steering carries only the next user text; it joins the original native session unchanged.
    pub fn follow_up(goal: String) -> (r: Self)
        ensures
            r@ == (RequestView { conversation: Seq::empty(), goal: goal@, context: Seq::empty() }),
    {
        let r = WorkRequest { conversation: String::new(), goal, context: Vec::new() };
        assert(contexts(r.context@) =~= Seq::empty());
        r
    }

    /// TakeDesignerGuidance lifts the one Account instruction while all remaining context stays data.
    pub fn take_designer_guidance(&mut self) -> (r: Result<Option<String>, String>)
        ensures
            guidance_count(old(self)@.context) > 1 ==> (r matches Err(e) && e@
                == "Work contains multiple Designer guidance entries"@ && final(self)@ == old(
                self,
            )@),
            guidance_count(old(self)@.context) <= 1 ==> (r matches Ok(g) && (match g {
                Some(t) => first_guidance(old(self)@.context) == Some(t@),
                None => first_guidance(old(self)@.context) is None,
            }) && final(self)@ == (RequestView {
                context: without_guidance(old(self)@.context),
                ..old(self)@
            })),
    {
        let ghost before = self@.context;
        let mut guidance: Option<String> = None;
        let mut count: usize = 0;
        let mut i: usize = 0;
        while i < self.context.len()
            invariant
                self@.context == before,
                i <= self.context.len(),
                count == guidance_count(before.subrange(0, i as int)),
                count <= i,
                match guidance {
                    Some(t) => first_guidance(before.subrange(0, i as int)) == Some(t@),
                    None => first_guidance(before.subrange(0, i as int)) is None,
                },
            decreases self.context.len() - i,
        {
            proof {
                assert(before.subrange(0, i + 1).drop_last() =~= before.subrange(0, i as int));
            }
            if self.context[i].designer_guidance() {
                if guidance.is_none() {
                    proof {
                        lemma_first_guidance_prefix(before, i as int);
                    }
                    guidance = Some(self.context[i].text.clone());
                } else {
                    proof {
                        lemma_first_guidance_found(before.subrange(0, i + 1), i as int);
                        assert(before.subrange(0, i + 1).subrange(0, i as int) =~= before.subrange(
                            0,
                            i as int,
                        ));
                    }
                }
                count = count + 1;
            } else {
                proof {
                    if guidance.is_none() {
                        lemma_first_guidance_prefix(before, i as int);
                    } else {
                        lemma_first_guidance_found(before.subrange(0, i + 1), i as int);
                        assert(before.subrange(0, i + 1).subrange(0, i as int) =~= before.subrange(
                            0,
                            i as int,
                        ));
                    }
                }
            }
            i = i + 1;
        }
        proof {
            assert(before.subrange(0, i as int) =~= before);
        }
        if count > 1 {
            return Err("Work contains multiple Designer guidance entries".to_owned());
        }
        let mut taken: Vec<WorkContext> = Vec::new();
        std::mem::swap(&mut taken, &mut self.context);
        let mut kept: Vec<WorkContext> = Vec::new();
        let mut j: usize = 0;
        while j < taken.len()
            invariant
                contexts(taken@) == before,
                j <= taken.len(),
                contexts(kept@) == without_guidance(before.subrange(0, j as int)),
            decreases taken.len() - j,
        {
            proof {
                assert(before.subrange(0, j + 1).drop_last() =~= before.subrange(0, j as int));
            }
            if !taken[j].designer_guidance() {
                let c = taken[j].copy();
                let ghost prior = kept@;
                kept.push(c);
                proof {
                    assert(contexts(kept@) =~= contexts(prior).push(c@));
                }
            }
            j = j + 1;
        }
        proof {
            assert(before.subrange(0, j as int) =~= before);
        }
        self.context = kept;
        Ok(guidance)
    }
}

} // verus!
